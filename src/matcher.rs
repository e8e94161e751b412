use vstd::prelude::*;
use fuzzy_matcher::skim::SkimMatcherV2;
use fuzzy_matcher::FuzzyMatcher;

verus! {

#[verifier::external_type_specification]
#[verifier::external_body]
pub struct ExSkimMatcherV2(SkimMatcherV2);

/// The code point of `c` with an ASCII upper-case letter taken to lower case.
pub open spec fn fold_ascii(c: char) -> u32 {
    let x = c as u32;
    if 65 <= x && x <= 90 { (x + 32) as u32 } else { x }
}

/// Whether the text holds an ASCII upper-case letter.
pub open spec fn has_ascii_upper(s: Seq<char>) -> bool {
    exists|i: int| 0 <= i < s.len() && 65 <= #[trigger] (s[i] as u32) <= 90
}

/// Two characters are the same, or, when case is ignored, the same up to ASCII case.
pub open spec fn agrees(a: char, b: char, case_sensitive: bool) -> bool {
    if case_sensitive { a == b } else { fold_ascii(a) == fold_ascii(b) }
}

/// Every character of `query` occurs in `candidate`, in order, not necessarily
/// next to each other; each query character is taken at its first possible place.
pub open spec fn ordered_in(candidate: Seq<char>, query: Seq<char>, case_sensitive: bool) -> bool
    decreases candidate.len(),
{
    if query.len() == 0 {
        true
    } else if candidate.len() == 0 {
        false
    } else if agrees(candidate[0], query[0], case_sensitive) {
        ordered_in(candidate.drop_first(), query.drop_first(), case_sensitive)
    } else {
        ordered_in(candidate.drop_first(), query, case_sensitive)
    }
}

/// The match policy: an empty query matches everything; otherwise the query must
/// be an ordered subsequence of the candidate, where case is ignored unless the
/// query holds an ASCII upper-case letter ("smart case").
pub open spec fn accepts(candidate: Seq<char>, query: Seq<char>) -> bool {
    query.len() == 0 || ordered_in(candidate, query, has_ascii_upper(query))
}

/// Relies on `<SkimMatcherV2 as Default>::default`: a matcher with smart case.
#[verifier::external_body]
fn skim_matcher() -> (r: SkimMatcherV2) {
    SkimMatcherV2::default()
}

/// Relies on `SkimMatcherV2::fuzzy_indices` (through `SkimMatcherV2::fuzzy`):
/// an empty pattern gives `Some`; otherwise the result is `None` exactly when
/// the greedy scan `util::cheap_matches` fails, comparing with `char_equal`,
/// case-sensitive only when `contains_upper` finds an ASCII capital in the
/// pattern (`CaseMatching::Smart`, the default).
#[verifier::external_body]
fn skim_hit(m: &SkimMatcherV2, choice: &str, pattern: &str) -> (r: bool)
    ensures
        r == accepts(choice@, pattern@),
{
    m.fuzzy_indices(choice, pattern).is_some()
}

/// Fuzzy matcher deciding whether a candidate is shown for a query.
pub struct Matcher {
    inner: SkimMatcherV2,
}

impl Matcher {
    pub fn new() -> (r: Matcher) {
        Matcher { inner: skim_matcher() }
    }

    /// Whether `candidate` matches `query` under the fuzzy subsequence policy.
    pub fn matches(&self, candidate: &str, query: &str) -> (r: bool)
        ensures
            r == accepts(candidate@, query@),
    {
        skim_hit(&self.inner, candidate, query)
    }
}

} // verus!
