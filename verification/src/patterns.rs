//! The regular-expression searches the organizer makes, through the `regex` crate.

use vstd::prelude::*;
use crate::text::utf8;

verus! {

/// One match of a regular expression: its byte range in the haystack and the text it covers.
pub struct Found {
    pub start: usize,
    pub end: usize,
    pub text: String,
}

pub struct FoundV {
    pub start: usize,
    pub end: usize,
    pub text: Seq<char>,
}

impl View for Found {
    type V = FoundV;

    open spec fn view(&self) -> FoundV {
        FoundV { start: self.start, end: self.end, text: self.text@ }
    }
}

/// What `Regex::new(pattern)` and then `find_iter(text)` yield: the successive
/// non-overlapping matches, or `None` when the pattern does not compile.
pub uninterp spec fn regex_matches(pattern: Seq<char>, text: Seq<char>) -> Option<Seq<FoundV>>;

/// What `Regex::new(pattern)` and then `captures(text)` give: `None` when the pattern does
/// not compile, `Some(None)` when nothing matches, else the text of each capture group,
/// the whole match first (`None` for a group that took no part).
pub uninterp spec fn regex_captures(pattern: Seq<char>, text: Seq<char>) -> Option<Option<Seq<Option<Seq<char>>>>>;

/// `Regex::new` then `find_iter`, each match taken as its range and `as_str`. Claimed
/// besides the name: each range is ordered, lies within the haystack's UTF-8 bytes, and
/// the matched text is the haystack's bytes in that range, as `regex::Match` documents.
#[verifier::external_body]
pub(crate) fn find_matches(pattern: &str, text: &str) -> (r: Option<Vec<Found>>)
    ensures
        match r {
            Some(v) => regex_matches(pattern@, text@) == Some(v@.map_values(|f: Found| f@)),
            None => regex_matches(pattern@, text@) is None,
        },
        r matches Some(v) ==> forall|i: int| 0 <= i < v@.len() ==> {
            let f = #[trigger] v@[i];
            &&& f.start <= f.end <= utf8(text@).len()
            &&& utf8(f.text@) == utf8(text@).subrange(f.start as int, f.end as int)
        },
{
    match regex::Regex::new(pattern) {
        Ok(re) => Some(
            re.find_iter(text).map(
                |m| Found { start: m.start(), end: m.end(), text: m.as_str().to_string() },
            ).collect(),
        ),
        Err(_) => None,
    }
}

/// `Regex::new` then `captures`, each group (the whole match first) taken by `as_str`.
#[verifier::external_body]
pub(crate) fn find_captures(pattern: &str, text: &str) -> (r: Option<Option<Vec<Option<String>>>>)
    ensures
        match r {
            None => regex_captures(pattern@, text@) is None,
            Some(None) => regex_captures(pattern@, text@) == Some(None::<Seq<Option<Seq<char>>>>),
            Some(Some(v)) => regex_captures(pattern@, text@) == Some(
                Some(v@.map_values(|g: Option<String>| crate::json::opt_view(g))),
            ),
        },
{
    match regex::Regex::new(pattern) {
        Ok(re) => Some(
            re.captures(text).map(
                |c| c.iter().map(|g| g.map(|m| m.as_str().to_string())).collect(),
            ),
        ),
        Err(_) => None,
    }
}

} // verus!
