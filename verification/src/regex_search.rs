//! Regular-expression searches, made with the `regex` crate.
//!
//! What a search finds is named, not restated: each name is the outcome of
//! compiling `pattern` with `regex::Regex::new` and searching `haystack`,
//! and is "no match" when the pattern does not compile. The `regex`
//! documentation guarantees that every match lies between byte offsets that
//! fall on character boundaries of the haystack, start before end, and that
//! `find_iter` yields successive non-overlapping matches.
use vstd::prelude::*;
use vstd::string::StringSliceAdditionalSpecFns;
use vstd::utf8::is_char_boundary;

verus! {

/// The first match of `pattern` in `haystack`, as byte offsets.
pub uninterp spec fn regex_first_match(pattern: Seq<char>, haystack: Seq<char>) -> Option<(usize, usize)>;

/// The successive non-overlapping matches of `pattern` in `haystack`, as byte offsets.
pub uninterp spec fn regex_all_matches(pattern: Seq<char>, haystack: Seq<char>) -> Seq<(usize, usize)>;

/// The span of capture group `group` in the first match of `pattern` in
/// `haystack`, as byte offsets; none when there is no match or the group
/// took no part in it.
pub uninterp spec fn regex_first_capture(
    pattern: Seq<char>,
    haystack: Seq<char>,
    group: usize,
) -> Option<(usize, usize)>;

/// A span that can slice `haystack`: ordered, on character boundaries.
pub open spec fn valid_span(haystack: &str, span: (usize, usize)) -> bool {
    &&& span.0 <= span.1
    &&& is_char_boundary(haystack.spec_bytes(), span.0 as int)
    &&& is_char_boundary(haystack.spec_bytes(), span.1 as int)
}

/// Compiles `pattern` with `regex::Regex::new` and returns the span of
/// `Regex::find` on `haystack`; `None` also when the pattern does not compile.
#[verifier::external_body]
pub(crate) fn regex_find(pattern: &str, haystack: &str) -> (r: Option<(usize, usize)>)
    ensures
        r == regex_first_match(pattern@, haystack@),
        r matches Some(span) ==> valid_span(haystack, span),
{
    let re = regex::Regex::new(pattern).ok()?;
    re.find(haystack).map(|m| (m.start(), m.end()))
}

/// Compiles `pattern` with `regex::Regex::new` and collects the spans that
/// `Regex::find_iter` yields on `haystack`; empty also when the pattern does
/// not compile. `find_iter` yields successive non-overlapping matches, so
/// each span ends at or before the next one starts.
#[verifier::external_body]
pub(crate) fn regex_find_all(pattern: &str, haystack: &str) -> (r: Vec<(usize, usize)>)
    ensures
        r@ == regex_all_matches(pattern@, haystack@),
        forall|i: int| 0 <= i < r@.len() ==> valid_span(haystack, #[trigger] r@[i]),
        forall|i: int, j: int| 0 <= i < j < r@.len() ==> #[trigger] r@[i].1 <= #[trigger] r@[j].0,
{
    match regex::Regex::new(pattern) {
        Ok(re) => re.find_iter(haystack).map(|m| (m.start(), m.end())).collect(),
        Err(_) => Vec::new(),
    }
}

/// Compiles `pattern` with `regex::Regex::new`, runs `Regex::captures` on
/// `haystack` and returns the span of `Captures::get(group)`; `None` also when
/// the pattern does not compile.
#[verifier::external_body]
pub(crate) fn regex_capture(pattern: &str, haystack: &str, group: usize) -> (r: Option<(usize, usize)>)
    ensures
        r == regex_first_capture(pattern@, haystack@, group),
        r matches Some(span) ==> valid_span(haystack, span),
{
    let re = regex::Regex::new(pattern).ok()?;
    re.captures(haystack)?.get(group).map(|m| (m.start(), m.end()))
}

} // verus!
