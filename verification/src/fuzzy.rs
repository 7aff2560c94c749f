//! Fuzzy matching of content, through `nucleo-matcher`, with a
//! case-insensitive substring match where the fuzzy pattern scores nothing.
use vstd::prelude::*;
use crate::text::{ascii_lower, chars_of, find_chars_from, find_first, is_ascii, spec_lowercase, to_lowercase};
use nucleo_matcher::pattern::{AtomKind, CaseMatching, Normalization, Pattern};
use nucleo_matcher::{Config, Matcher, Utf32Str};

verus! {

/// Whether `nucleo-matcher`, with its default configuration, a fuzzy pattern
/// made of `query` (case ignored, smart normalization) scores `text` at all.
pub uninterp spec fn spec_fuzzy_match(text: Seq<char>, query: Seq<char>) -> bool;

/// `Pattern::score` of the fuzzy pattern `query` on `text`, as a yes/no; the
/// contract names the answer `spec_fuzzy_match(text@, query@)`.
#[verifier::external_body]
pub(crate) fn fuzzy_match(text: &str, query: &str) -> (r: bool)
    ensures
        r == spec_fuzzy_match(text@, query@),
{
    let mut matcher = Matcher::new(Config::DEFAULT);
    let pattern = Pattern::new(query, CaseMatching::Ignore, Normalization::Smart, AtomKind::Fuzzy);
    let mut buf = Vec::new();
    let haystack = Utf32Str::new(text, &mut buf);
    pattern.score(haystack, &mut matcher).is_some()
}

/// Whether `text` matches `query`: the fuzzy pattern scores it, or else the
/// lowercase query occurs in the lowercase text.
pub open spec fn spec_match(text: Seq<char>, query: Seq<char>) -> bool {
    spec_fuzzy_match(text, query) || find_first(spec_lowercase(text), spec_lowercase(query)) is Some
}

/// `MATCH(text, query)`: fuzzy matching, falling back to a case-insensitive
/// substring match (see `spec_match`). On ASCII texts, a query that occurs
/// in the text, letter case aside, matches.
pub fn match_text(text: &str, query: &str) -> (r: bool)
    ensures
        r == spec_match(text@, query@),
        is_ascii(text@) && is_ascii(query@) && find_first(ascii_lower(text@), ascii_lower(query@)) is Some ==> r,
{
    if fuzzy_match(text, query) {
        return true;
    }
    let lt = to_lowercase(text);
    let lq = to_lowercase(query);
    let hay = chars_of(lt.as_str());
    let needle = chars_of(lq.as_str());
    find_chars_from(&hay, &needle, 0).is_some()
}

/// Law: where the lowercase query occurs in the lowercase text, the text
/// matches.
pub proof fn law_substring_matches(text: Seq<char>, query: Seq<char>)
    requires
        find_first(spec_lowercase(text), spec_lowercase(query)) is Some,
    ensures
        spec_match(text, query),
{
}

/// Law: whenever the fuzzy pattern scores the text, the text matches; and
/// a match is either that or the lowercase query occurring in the lowercase
/// text.
pub proof fn law_fuzzy_score_matches(text: Seq<char>, query: Seq<char>)
    ensures
        spec_fuzzy_match(text, query) ==> spec_match(text, query),
        spec_match(text, query) ==> spec_fuzzy_match(text, query) || find_first(spec_lowercase(text), spec_lowercase(query)) is Some,
{
}

} // verus!
