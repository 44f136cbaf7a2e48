//! Regular-expression searches, done by the `regex` crate.

use vstd::prelude::*;

verus! {

/// The successive non-overlapping leftmost matches of `pattern` in `text`:
/// for each, the matched text and the rest of `text` from the match's start;
/// `None` when `pattern` is not a valid regular expression.
pub uninterp spec fn regex_matches(pattern: Seq<char>, text: Seq<char>) -> Option<Seq<(Seq<char>, Seq<char>)>>;

/// The successive non-overlapping matches of `pattern` in `text`, each as
/// the texts of its capture groups (group 0 the whole match, `None` for a
/// group that did not take part); `None` when `pattern` is not a valid
/// regular expression.
pub uninterp spec fn regex_captures(pattern: Seq<char>, text: Seq<char>) -> Option<Seq<Seq<Option<Seq<char>>>>>;

/// The characters of each pair of texts.
pub open spec fn match_views(v: Seq<(String, String)>) -> Seq<(Seq<char>, Seq<char>)> {
    v.map_values(|p: (String, String)| (p.0@, p.1@))
}

/// The characters of each optional group text.
pub open spec fn group_views(g: Seq<Option<String>>) -> Seq<Option<Seq<char>>> {
    g.map_values(|o: Option<String>| match o {
        Some(t) => Some(t@),
        None => None,
    })
}

/// The characters of the groups of each match.
pub open spec fn capture_views(v: Seq<Vec<Option<String>>>) -> Seq<Seq<Option<Seq<char>>>> {
    v.map_values(|g: Vec<Option<String>>| group_views(g@))
}

/// The matches of `pattern` in `text`.
///
/// Trusted: compiles `pattern` with `regex::Regex::new` and walks
/// `Regex::find_iter`, keeping for each match its text and the rest of
/// `text` from its start; the result is named by `regex_matches`.
#[verifier::external_body]
pub(crate) fn find_matches(pattern: &str, text: &str) -> (r: Option<Vec<(String, String)>>)
    ensures
        match r {
            Some(v) => regex_matches(pattern@, text@) == Some(match_views(v@)),
            None => regex_matches(pattern@, text@) is None,
        },
{
    let re = regex::Regex::new(pattern).ok()?;
    Some(re.find_iter(text).map(|m| (m.as_str().to_string(), text[m.start()..].to_string())).collect())
}

/// The capture groups of each match of `pattern` in `text`.
///
/// Trusted: compiles `pattern` with `regex::Regex::new` and walks
/// `Regex::captures_iter`, keeping the text of every group; the result is
/// named by `regex_captures`.
#[verifier::external_body]
pub(crate) fn find_captures(pattern: &str, text: &str) -> (r: Option<Vec<Vec<Option<String>>>>)
    ensures
        match r {
            Some(v) => regex_captures(pattern@, text@) == Some(capture_views(v@)),
            None => regex_captures(pattern@, text@) is None,
        },
{
    let re = regex::Regex::new(pattern).ok()?;
    Some(
        re.captures_iter(text).map(|c| c.iter().map(|g| g.map(|m| m.as_str().to_string())).collect()).collect(),
    )
}

} // verus!
