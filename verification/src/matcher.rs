//! Searching a text with a regular expression, with the outcome as plain
//! values.
//!
//! An expression is compiled anew for each search, so that the outcome is a
//! matter of the expression's text and the text searched, and of nothing
//! that is kept between the calls.

use vstd::prelude::*;
use vstd::utf8::{encode_utf8, is_char_boundary};

verus! {

/// One match of a pattern in a text.
#[derive(Debug, Clone)]
pub struct MatchSpan {
    /// Byte offset at which the match starts.
    pub start: usize,
    /// Byte offset just behind the match.
    pub end: usize,
    /// For each capture group of the pattern, the whole match being group 0,
    /// whether it took part in this match.
    pub groups: Vec<bool>,
}

/// The matches as plain values: start, end, and the groups that took part.
pub open spec fn span_views(spans: Seq<MatchSpan>) -> Seq<(int, int, Seq<bool>)> {
    Seq::new(spans.len(), |i: int| (spans[i].start as int, spans[i].end as int, spans[i].groups@))
}

/// Whether the matches lie in a text of the given bytes as successive
/// non-overlapping matches do: each runs from one character boundary to
/// another inside the text, and none begins before an earlier one ends.
pub open spec fn spans_fit(bytes: Seq<u8>, spans: Seq<(int, int, Seq<bool>)>) -> bool {
    &&& forall|k: int|
        0 <= k < spans.len() ==> 0 <= (#[trigger] spans[k]).0 <= spans[k].1 <= bytes.len()
            && is_char_boundary(bytes, spans[k].0) && is_char_boundary(bytes, spans[k].1)
    &&& forall|j: int, k: int| 0 <= j < k < spans.len() ==> spans[j].1 <= spans[k].0
}

/// The successive non-overlapping matches of `pattern` in `text`, as the
/// `regex` crate finds them; `None` where `pattern` is no valid expression.
pub uninterp spec fn regex_matches(pattern: Seq<char>, text: Seq<char>) -> Option<
    Seq<(int, int, Seq<bool>)>,
>;

/// Whether `pattern` matches anywhere in `text`, as the `regex` crate
/// decides it; `None` where `pattern` is no valid expression.
pub uninterp spec fn regex_is_match(pattern: Seq<char>, text: Seq<char>) -> Option<bool>;

/// All matches of `pattern` in `text`, in the order in which they are found.
///
/// Trusted: `regex::Regex::new` and `regex::Regex::captures_iter`. The
/// contract gives the outcome a name, as it depends on the pattern and the
/// text alone, and says of it what the crate documents of every search:
/// the matches come one after the other without overlap, and the offsets of
/// a match fall on character boundaries, the start no later than the end.
/// Each match is handed out as its byte offsets and, group by group,
/// whether the group took part.
#[verifier::external_body]
pub(crate) fn find_matches(pattern: &str, text: &str) -> (found: Option<Vec<MatchSpan>>)
    ensures
        match found {
            Some(spans) => regex_matches(pattern@, text@) == Some(span_views(spans@)) && spans_fit(
                encode_utf8(text@),
                span_views(spans@),
            ),
            None => regex_matches(pattern@, text@) is None,
        },
{
    let re = regex::Regex::new(pattern).ok()?;
    Some(
        re.captures_iter(text).map(
            |caps|
                MatchSpan {
                    start: caps.get_match().start(),
                    end: caps.get_match().end(),
                    groups: caps.iter().map(|group| group.is_some()).collect(),
                },
        ).collect(),
    )
}

/// Whether `pattern` matches anywhere in `text`.
///
/// Trusted: `regex::Regex::new` and `regex::Regex::is_match`. The contract
/// only gives the outcome a name: it depends on the pattern and the text
/// alone.
#[verifier::external_body]
pub(crate) fn is_match(pattern: &str, text: &str) -> (found: Option<bool>)
    ensures
        found == regex_is_match(pattern@, text@),
{
    let re = regex::Regex::new(pattern).ok()?;
    Some(re.is_match(text))
}

} // verus!
