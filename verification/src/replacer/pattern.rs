//! The regex matcher.
//!
//! A regex is kept as plain data: its source text and the flags it is built
//! with. What the regex engine makes of it (whether it accepts the source,
//! where it matches, what a replacement text expands to) is named here and
//! left to the engine; the contracts of the library speak of these names.

use vstd::prelude::*;
use crate::replacer::splice::{MatchSpan, spans_ordered};

verus! {

/// A regex: its source and the flags it is built with.
#[derive(Debug, Clone, PartialEq, Eq)]
pub struct RegexPattern {
    pub source: String,
    pub case_insensitive: bool,
    pub multi_line: bool,
    pub dot_matches_new_line: bool,
    pub unicode: bool,
}

/// What `regex::bytes::RegexBuilder::build` answers to this source with
/// these flags: nothing where it builds a regex from them, else the message
/// of its error.
pub uninterp spec fn regex_build_error(
    source: Seq<char>,
    case_insensitive: bool,
    multi_line: bool,
    dot_matches_new_line: bool,
    unicode: bool,
) -> Option<Seq<char>>;

/// The matches of the regex in `text`, each as `(start, end)`, in the order
/// in which `regex::bytes::Regex::find_iter` yields them.
pub uninterp spec fn regex_spans(
    source: Seq<char>,
    case_insensitive: bool,
    multi_line: bool,
    dot_matches_new_line: bool,
    unicode: bool,
    text: Seq<u8>,
) -> Seq<(usize, usize)>;

/// For each match of the regex in `text`, what `replacement` expands to
/// against the capture groups of that match: what
/// `regex::bytes::Captures::expand` appends.
pub uninterp spec fn regex_expansions(
    source: Seq<char>,
    case_insensitive: bool,
    multi_line: bool,
    dot_matches_new_line: bool,
    unicode: bool,
    text: Seq<u8>,
    replacement: Seq<u8>,
) -> Seq<Seq<u8>>;

impl RegexPattern {
    /// Whether the regex engine accepts the pattern.
    pub open spec fn compiles(self) -> bool {
        self.build_error() is None
    }

    /// The message with which the regex engine refuses the pattern, if it does.
    pub open spec fn build_error(self) -> Option<Seq<char>> {
        regex_build_error(
            self.source@,
            self.case_insensitive,
            self.multi_line,
            self.dot_matches_new_line,
            self.unicode,
        )
    }

    /// The matches of the pattern in `text`.
    pub open spec fn pairs(self, text: Seq<u8>) -> Seq<(usize, usize)> {
        regex_spans(
            self.source@,
            self.case_insensitive,
            self.multi_line,
            self.dot_matches_new_line,
            self.unicode,
            text,
        )
    }

    /// The matches of the pattern in `text`, as spans.
    pub open spec fn spans(self, text: Seq<u8>) -> Seq<MatchSpan> {
        spans_of_pairs(self.pairs(text))
    }

    /// The expansion of `replacement` at each match of the pattern in `text`.
    pub open spec fn expansions(self, text: Seq<u8>, replacement: Seq<u8>) -> Seq<Seq<u8>> {
        regex_expansions(
            self.source@,
            self.case_insensitive,
            self.multi_line,
            self.dot_matches_new_line,
            self.unicode,
            text,
            replacement,
        )
    }
}

/// Pairs of offsets as spans.
pub open spec fn spans_of_pairs(pairs: Seq<(usize, usize)>) -> Seq<MatchSpan> {
    Seq::new(pairs.len(), |i: int| MatchSpan { start: pairs[i].0, end: pairs[i].1 })
}

/// Builds the regex with `regex::bytes::RegexBuilder` and drops it. The
/// result is the displayed text of the build's error, if there is one; that
/// it depends on the source and the flags alone is all that is claimed.
#[verifier::external_body]
pub(crate) fn regex_check(p: &RegexPattern) -> (r: Option<String>)
    ensures
        r is Some == regex_build_error(
            p.source@,
            p.case_insensitive,
            p.multi_line,
            p.dot_matches_new_line,
            p.unicode,
        ) is Some,
        r matches Some(message) ==> Some(message@) == regex_build_error(
            p.source@,
            p.case_insensitive,
            p.multi_line,
            p.dot_matches_new_line,
            p.unicode,
        ),
{
    regex::bytes::RegexBuilder::new(&p.source)
        .unicode(p.unicode)
        .case_insensitive(p.case_insensitive)
        .multi_line(p.multi_line)
        .dot_matches_new_line(p.dot_matches_new_line)
        .build()
        .err()
        .map(|e| e.to_string())
}

/// The matches that `regex::bytes::Regex::find_iter` yields in `text`: they
/// are successive and do not overlap, and each lies in the text.
#[verifier::external_body]
pub(crate) fn regex_find(p: &RegexPattern, text: &[u8]) -> (pairs: Vec<(usize, usize)>)
    requires
        p.compiles(),
    ensures
        pairs@ == regex_spans(
            p.source@,
            p.case_insensitive,
            p.multi_line,
            p.dot_matches_new_line,
            p.unicode,
            text@,
        ),
        spans_ordered(spans_of_pairs(pairs@), text@.len() as int),
{
    let re = regex::bytes::RegexBuilder::new(&p.source)
        .unicode(p.unicode)
        .case_insensitive(p.case_insensitive)
        .multi_line(p.multi_line)
        .dot_matches_new_line(p.dot_matches_new_line)
        .build()
        .unwrap();
    re.find_iter(text).map(|m| (m.start(), m.end())).collect()
}

/// For each match that `regex::bytes::Regex::captures_iter` yields in
/// `text`, what `regex::bytes::Captures::expand` appends for `replacement`.
/// The iterator yields one capture set for each match that `find_iter`
/// yields, in the same order.
#[verifier::external_body]
pub(crate) fn regex_expand(p: &RegexPattern, text: &[u8], replacement: &[u8]) -> (out: Vec<Vec<u8>>)
    requires
        p.compiles(),
    ensures
        out@.len() == p.pairs(text@).len(),
        out@.len() == p.expansions(text@, replacement@).len(),
        forall|i: int|
            0 <= i < out@.len() ==> (#[trigger] out@[i])@ == regex_expansions(
                p.source@,
                p.case_insensitive,
                p.multi_line,
                p.dot_matches_new_line,
                p.unicode,
                text@,
                replacement@,
            )[i],
{
    let re = regex::bytes::RegexBuilder::new(&p.source)
        .unicode(p.unicode)
        .case_insensitive(p.case_insensitive)
        .multi_line(p.multi_line)
        .dot_matches_new_line(p.dot_matches_new_line)
        .build()
        .unwrap();
    let mut out = Vec::new();
    for caps in re.captures_iter(text) {
        let mut expansion = Vec::new();
        caps.expand(replacement, &mut expansion);
        out.push(expansion);
    }
    out
}

/// The matches of an accepted pattern in `text`.
pub fn find_regex_spans(p: &RegexPattern, text: &[u8]) -> (spans: Vec<MatchSpan>)
    requires
        p.compiles(),
    ensures
        spans@ == p.spans(text@),
        spans_ordered(spans@, text@.len() as int),
{
    let pairs = regex_find(p, text);
    let mut spans: Vec<MatchSpan> = Vec::new();
    let mut i: usize = 0;
    while i < pairs.len()
        invariant
            i <= pairs@.len(),
            spans@ == spans_of_pairs(pairs@).take(i as int),
        decreases pairs.len() - i,
    {
        let pair = pairs[i];
        spans.push(MatchSpan { start: pair.0, end: pair.1 });
        i = i + 1;
        assert(spans@ =~= spans_of_pairs(pairs@).take(i as int));
    }
    assert(spans@ =~= spans_of_pairs(pairs@));
    spans
}

} // verus!
