//! Compiled regular expressions, and what a search with one yields, as plain
//! values. The matching itself is done by the `regex` crate.

use vstd::prelude::*;
use regex::Regex;
use crate::text::opt_text;

verus! {

#[verifier::external_type_specification]
#[verifier::external_body]
pub struct ExRegex(Regex);

#[verifier::external_type_specification]
#[verifier::external_body]
pub struct ExRegexError(regex::Error);

/// Whether `regex::Regex::new` accepts `pattern` (its syntax is valid and the
/// compiled program stays within the default size limit).
pub uninterp spec fn regex_compiles(pattern: Seq<char>) -> bool;

/// The successive non-overlapping leftmost-first matches of `pattern` in
/// `haystack`, as `Regex::captures_iter` reports them: for each match, the text
/// between the end of the previous match and the start of this one, and the
/// text of each capture group (group 0 being the whole match, `None` for a
/// group that did not take part); then the text after the last match.
pub uninterp spec fn regex_captures(pattern: Seq<char>, haystack: Seq<char>) -> (
    Seq<(Seq<char>, Seq<Option<Seq<char>>>)>,
    Seq<char>,
);

/// One match of a search: the unmatched text before it, and its groups.
pub struct Segment {
    pub before: String,
    pub groups: Vec<Option<String>>,
}

/// The view of a segment: the text before the match and the group texts.
pub open spec fn segment_view(s: Segment) -> (Seq<char>, Seq<Option<Seq<char>>>) {
    (s.before@, s.groups@.map_values(|g: Option<String>| opt_text(g)))
}

/// The views of a sequence of segments.
pub open spec fn segments_view(v: Seq<Segment>) -> Seq<(Seq<char>, Seq<Option<Seq<char>>>)> {
    v.map_values(|s: Segment| segment_view(s))
}

/// The text of group `i` of a match, or the empty text where that group did not
/// take part in it.
pub open spec fn group_text(seg: (Seq<char>, Seq<Option<Seq<char>>>), i: int) -> Seq<char> {
    if 0 <= i < seg.1.len() && seg.1[i] is Some {
        seg.1[i]->0
    } else {
        Seq::empty()
    }
}

/// Group 0 of every match is present.
pub open spec fn whole_matches_present(segs: Seq<(Seq<char>, Seq<Option<Seq<char>>>)>) -> bool {
    forall|k: int| 0 <= k < segs.len() ==> (#[trigger] segs[k]).1.len() > 0 && segs[k].1[0] is Some
}

/// The text covered by the first matches: each unmatched piece followed by
/// the whole match.
pub open spec fn rejoined(segs: Seq<(Seq<char>, Seq<Option<Seq<char>>>)>) -> Seq<char>
    decreases segs.len(),
{
    if segs.len() == 0 {
        Seq::empty()
    } else {
        rejoined(segs.drop_last()) + segs.last().0 + group_text(segs.last(), 0)
    }
}

/// A compiled regular expression, together with the pattern it was compiled
/// from; only `regex_new` builds one, so the two always agree.
pub struct Pattern {
    regex: Regex,
    source: Ghost<Seq<char>>,
}

impl View for Pattern {
    type V = Seq<char>;

    /// The pattern text the expression was compiled from.
    closed spec fn view(&self) -> Seq<char> {
        self.source@
    }
}

/// Why a pattern could not be compiled.
#[derive(Debug, Clone, Copy, PartialEq, Eq)]
pub enum PatternError {
    /// `regex::Regex::new` refused the pattern.
    Invalid,
}

/// Calls `regex::Regex::new` and keeps the compiled expression together with
/// the text it was compiled from. The claim: it succeeds exactly when the
/// pattern compiles, and the expression it holds is compiled from `pattern`.
#[verifier::external_body]
fn regex_new(pattern: &str) -> (r: Result<Pattern, regex::Error>)
    ensures
        r is Ok <==> regex_compiles(pattern@),
        r matches Ok(p) ==> p@ == pattern@,
{
    match Regex::new(pattern) {
        Ok(regex) => Ok(Pattern { regex, source: Ghost(pattern@) }),
        Err(e) => Err(e),
    }
}

/// Calls `regex::Regex::captures_iter` on the expression and gathers every
/// match as plain text. The claim: the result is what `regex_captures` names;
/// every match has its group 0; and the pieces before the matches, the matches
/// and the remaining text put back together give the haystack (matches come in
/// order and do not overlap). Which text matches is not stated.
#[verifier::external_body]
fn regex_captures_iter(pattern: &Pattern, haystack: &str) -> (r: (Vec<Segment>, String))
    ensures
        segments_view(r.0@) == regex_captures(pattern@, haystack@).0,
        r.1@ == regex_captures(pattern@, haystack@).1,
        whole_matches_present(segments_view(r.0@)),
        rejoined(segments_view(r.0@)) + r.1@ == haystack@,
{
    let mut segments = Vec::new();
    let mut last: usize = 0;
    for caps in pattern.regex.captures_iter(haystack) {
        let whole = caps.get_match();
        let groups = caps.iter().map(|g| g.map(|m| m.as_str().to_string())).collect();
        segments.push(Segment { before: haystack[last..whole.start()].to_string(), groups });
        last = whole.end();
    }
    (segments, haystack[last..].to_string())
}

/// Calls `regex::Regex::is_match`: true exactly when the expression matches
/// somewhere, that is, when `captures_iter` finds at least one match.
#[verifier::external_body]
fn regex_is_match(pattern: &Pattern, haystack: &str) -> (b: bool)
    ensures
        b == (regex_captures(pattern@, haystack@).0.len() > 0),
{
    pattern.regex.is_match(haystack)
}

impl Pattern {
    /// Compiles `source`; fails exactly when `regex::Regex::new` refuses it.
    pub fn new(source: &str) -> (r: Result<Pattern, PatternError>)
        ensures
            r is Ok <==> regex_compiles(source@),
            r matches Ok(p) ==> p@ == source@,
    {
        match regex_new(source) {
            Ok(p) => Ok(p),
            Err(_) => Err(PatternError::Invalid),
        }
    }

    /// Whether the expression matches somewhere in `haystack`.
    pub fn is_match(&self, haystack: &str) -> (b: bool)
        ensures
            b == (regex_captures(self@, haystack@).0.len() > 0),
    {
        regex_is_match(self, haystack)
    }

    /// Every match of the expression in `haystack`, and the text after the last one.
    pub fn captures(&self, haystack: &str) -> (r: (Vec<Segment>, String))
        ensures
            segments_view(r.0@) == regex_captures(self@, haystack@).0,
            r.1@ == regex_captures(self@, haystack@).1,
            whole_matches_present(regex_captures(self@, haystack@).0),
            rejoined(regex_captures(self@, haystack@).0) + regex_captures(self@, haystack@).1 == haystack@,
    {
        regex_captures_iter(self, haystack)
    }
}

} // verus!
