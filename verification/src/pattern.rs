//! Regular-expression matching, done by the `regex` crate.

use vstd::prelude::*;

verus! {

/// The capture groups of one match: for each group of the pattern, the
/// character span it matched, or `None` when the group took no part.
pub type GroupSpans = Seq<Option<(usize, usize)>>;

/// What `regex::Regex::new(pattern)` followed by `captures_iter(haystack)`
/// yields: `None` when the pattern does not compile, otherwise the successive
/// non-overlapping matches from left to right, each as its group spans, with
/// positions counted in characters of `haystack`.
pub uninterp spec fn regex_captures(pattern: Seq<char>, haystack: Seq<char>) -> Option<Seq<GroupSpans>>;

/// What `regex::Regex::new(pattern)` followed by
/// `replace_all(haystack, replacement)` yields: `None` when the pattern does
/// not compile, otherwise the text with every match replaced.
pub uninterp spec fn regex_replaced(pattern: Seq<char>, haystack: Seq<char>, replacement: Seq<char>) -> Option<Seq<char>>;

/// Every group span lies inside a haystack of `len` characters, and every
/// match has its whole-match group.
pub open spec fn spans_in_bounds(ms: Seq<GroupSpans>, len: nat) -> bool {
    forall|i: int| 0 <= i < ms.len() ==> {
        &&& (#[trigger] ms[i]).len() >= 1
        &&& ms[i][0] is Some
        &&& forall|g: int| 0 <= g < ms[i].len() ==> (#[trigger] ms[i][g] matches Some(sp) ==> sp.0 <= sp.1 <= len)
    }
}

/// The matches of `pattern` in `haystack`, or no match when the pattern does not compile.
pub open spec fn matches_of(pattern: Seq<char>, haystack: Seq<char>) -> Seq<GroupSpans> {
    match regex_captures(pattern, haystack) {
        Some(ms) => ms,
        None => Seq::empty(),
    }
}

/// Compiles `pattern` with `regex::Regex::new` and collects the capture
/// groups of every match of `captures_iter` over `haystack`, converting byte
/// offsets into character positions.  The contract claims that the result is
/// `regex_captures` of the two texts, that every match has its whole-match
/// group and that every span lies inside the haystack, as the `regex`
/// documentation describes `Captures` and `Match`.
#[verifier::external_body]
fn captures_all(pattern: &str, haystack: &str) -> (r: Option<Vec<Vec<Option<(usize, usize)>>>>)
    ensures
        r.deep_view() == regex_captures(pattern@, haystack@),
        r matches Some(ms) ==> spans_in_bounds(ms.deep_view(), haystack@.len()),
{
    let re = match regex::Regex::new(pattern) {
        Ok(re) => re,
        Err(_) => return None,
    };
    let at = |b: usize| haystack[..b].chars().count();
    Some(re.captures_iter(haystack).map(|c| c.iter().map(|g| g.map(|m| (at(m.start()), at(m.end())))).collect()).collect())
}

/// The matches of `pattern` in `haystack`, each as its group spans.
pub fn find_matches(pattern: &str, haystack: &str) -> (r: Vec<Vec<Option<(usize, usize)>>>)
    ensures
        r.deep_view() == matches_of(pattern@, haystack@),
        spans_in_bounds(r.deep_view(), haystack@.len()),
{
    match captures_all(pattern, haystack) {
        Some(ms) => ms,
        None => {
            let v: Vec<Vec<Option<(usize, usize)>>> = Vec::new();
            assert(v.deep_view() =~= Seq::<GroupSpans>::empty());
            v
        },
    }
}

/// Compiles `pattern` with `regex::Regex::new` and returns
/// `replace_all(haystack, replacement)` as an owned string.  The contract
/// claims only that the result is `regex_replaced` of the three texts.
#[verifier::external_body]
fn replace_all_matches(pattern: &str, haystack: &str, replacement: &str) -> (r: Option<String>)
    ensures
        r.deep_view() == regex_replaced(pattern@, haystack@, replacement@),
{
    match regex::Regex::new(pattern) {
        Ok(re) => Some(re.replace_all(haystack, replacement).into_owned()),
        Err(_) => None,
    }
}

/// `haystack` with every match of `pattern` replaced by `replacement`; the
/// haystack unchanged when the pattern does not compile.
pub fn replace_all(pattern: &str, haystack: &str, replacement: &str) -> (r: String)
    ensures
        r@ == match regex_replaced(pattern@, haystack@, replacement@) {
            Some(t) => t,
            None => haystack@,
        },
{
    match replace_all_matches(pattern, haystack, replacement) {
        Some(t) => t,
        None => haystack.to_owned(),
    }
}

} // verus!
