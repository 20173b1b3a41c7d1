//! The byte-level replacer: which matches of a pattern are replaced, and
//! what the result is.

pub mod allowlist;
pub mod laws;
pub mod lines;
pub mod literal;
pub mod pattern;
pub mod splice;
pub mod validate;

use vstd::prelude::*;
use vstd::slice::slice_to_vec;
use vstd::string::StringSliceAdditionalSpecFns;
use vstd::utf8::encode_utf8;
use crate::error::Error;
use crate::model::{LineRange, ReplacementRange, ValidationMode};
use crate::replacer::allowlist::{ranges_sorted, same_ranges, sort_ranges};
use crate::replacer::literal::{find_literal_spans, literal_spans};
use crate::replacer::pattern::{RegexPattern, find_regex_spans, regex_check, regex_expand};
use crate::replacer::splice::{
    Filters,
    MatchSpan,
    accepted,
    applied,
    count_spans,
    replace_spans,
    replacements_of,
    spliced,
};
use crate::replacer::validate::{Validated, validate_replacement, validation_of};
use crate::scan::DOLLAR;
use crate::text::concat;

verus! {

/// How matches are found.
#[derive(Debug, Clone, PartialEq, Eq)]
pub enum Matcher {
    Regex(RegexPattern),
    Literal(Vec<u8>),
}

/// How matches are found, as plain values.
pub enum MatcherModel {
    Regex {
        source: Seq<char>,
        case_insensitive: bool,
        multi_line: bool,
        dot_matches_new_line: bool,
        unicode: bool,
    },
    Literal(Seq<u8>),
}

impl View for Matcher {
    type V = MatcherModel;

    open spec fn view(&self) -> MatcherModel {
        match self {
            Matcher::Regex(p) => MatcherModel::Regex {
                source: p.source@,
                case_insensitive: p.case_insensitive,
                multi_line: p.multi_line,
                dot_matches_new_line: p.dot_matches_new_line,
                unicode: p.unicode,
            },
            Matcher::Literal(needle) => MatcherModel::Literal(needle@),
        }
    }
}

impl MatcherModel {
    /// The matches in `text`, from left to right.
    pub open spec fn spans(self, text: Seq<u8>) -> Seq<MatchSpan> {
        match self {
            MatcherModel::Regex {
                source,
                case_insensitive,
                multi_line,
                dot_matches_new_line,
                unicode,
            } => pattern::spans_of_pairs(
                pattern::regex_spans(
                    source,
                    case_insensitive,
                    multi_line,
                    dot_matches_new_line,
                    unicode,
                    text,
                ),
            ),
            MatcherModel::Literal(needle) => literal_spans(text, needle),
        }
    }

    /// What `replacement` expands to at each match in `text`; for the
    /// literal matcher, which knows no groups, the replacement itself.
    pub open spec fn expansions(self, text: Seq<u8>, replacement: Seq<u8>) -> Seq<Seq<u8>> {
        match self {
            MatcherModel::Regex {
                source,
                case_insensitive,
                multi_line,
                dot_matches_new_line,
                unicode,
            } => pattern::regex_expansions(
                source,
                case_insensitive,
                multi_line,
                dot_matches_new_line,
                unicode,
                text,
                replacement,
            ),
            MatcherModel::Literal(_) => Seq::new(self.spans(text).len(), |i: int| replacement),
        }
    }
}

/// What a replacer does, as plain values: how it finds matches, what it puts
/// in their place, and which of them it takes.
pub struct Plan {
    pub matcher: MatcherModel,
    /// The replacement text, after validation.
    pub replacement: Seq<u8>,
    /// Whether capture references in the replacement text are expanded.
    pub expand: bool,
    pub filters: Filters,
}

impl Plan {
    /// The matches of the pattern in `text`.
    pub open spec fn spans(self, text: Seq<u8>) -> Seq<MatchSpan> {
        self.matcher.spans(text)
    }

    /// What each match of the pattern in `text` is replaced with: the
    /// expansion of the replacement text against the match where a regex is
    /// used and expansion is on, else the replacement text as it is.
    pub open spec fn replacements(self, text: Seq<u8>) -> Seq<Seq<u8>> {
        Seq::new(
            self.spans(text).len(),
            |i: int|
                if self.expand && self.matcher is Regex {
                    self.matcher.expansions(text, self.replacement)[i]
                } else {
                    self.replacement
                },
        )
    }

    /// The number of matches in `text` that pass the filters.
    pub open spec fn match_count(self, text: Seq<u8>) -> nat {
        accepted(text, self.spans(text), self.filters).len()
    }

    /// The number of matches in `text` that are replaced.
    pub open spec fn replaced_count(self, text: Seq<u8>) -> nat {
        applied(text, self.spans(text), self.filters).len()
    }

    /// `text` with the matches that pass the filters replaced, up to the limit.
    pub open spec fn replaced(self, text: Seq<u8>) -> Seq<u8> {
        spliced(
            text,
            self.spans(text),
            self.replacements(text),
            applied(text, self.spans(text), self.filters),
        )
    }

    /// The two plans differ at most in the order of their allowlists.
    pub open spec fn same_up_to_order(self, other: Plan) -> bool {
        &&& self.matcher == other.matcher
        &&& self.replacement == other.replacement
        &&& self.expand == other.expand
        &&& self.filters.limit == other.filters.limit
        &&& self.filters.range == other.filters.range
        &&& match (self.filters.allowed, other.filters.allowed) {
            (None, None) => true,
            (Some(a), Some(b)) => same_ranges(a, b),
            _ => false,
        }
    }
}

/// Why no replacer is built.
pub enum Refusal {
    /// The replacement text holds an ambiguous capture reference; the
    /// message says which.
    Ambiguous(Seq<char>),
    /// The regex engine refuses the pattern, with this message.
    Pattern(Seq<char>),
}

/// The characters that the regex syntax gives a meaning to.
pub open spec fn is_meta_character(c: char) -> bool {
    c == '\\' || c == '.' || c == '+' || c == '*' || c == '?' || c == '(' || c == ')' || c == '|'
        || c == '[' || c == ']' || c == '{' || c == '}' || c == '^' || c == '$' || c == '#' || c
        == '&' || c == '-' || c == '~'
}

/// `s` with a backslash before each meta character.
pub open spec fn escaped(s: Seq<char>) -> Seq<char>
    decreases s.len(),
{
    if s.len() == 0 {
        Seq::empty()
    } else if is_meta_character(s.last()) {
        escaped(s.drop_last()).push('\\').push(s.last())
    } else {
        escaped(s.drop_last()).push(s.last())
    }
}

/// Whether `c` is an uppercase character, as `char::is_uppercase` has it.
pub uninterp spec fn char_is_uppercase(c: char) -> bool;

/// Some character of `s` is uppercase.
pub open spec fn has_uppercase(s: Seq<char>) -> bool {
    exists|i: int| 0 <= i < s.len() && char_is_uppercase(#[trigger] s[i])
}

/// Whether matches are found by byte search: the pattern is literal, case
/// matters, words do not, and the replacement needs no capture groups.
pub open spec fn uses_literal_matcher(
    fixed_strings: bool,
    ignore_case: bool,
    smart_case: bool,
    word_regexp: bool,
    expand: bool,
    replacement: Seq<u8>,
) -> bool {
    fixed_strings && !ignore_case && !smart_case && !word_regexp && (!expand
        || !replacement.contains(DOLLAR))
}

/// The source of the regex that is built for a pattern.
pub open spec fn regex_source(pattern: Seq<char>, fixed_strings: bool, word_regexp: bool) -> Seq<
    char,
> {
    let body = if fixed_strings {
        escaped(pattern)
    } else {
        pattern
    };
    if word_regexp {
        "\\b"@ + body + "\\b"@
    } else {
        body
    }
}

/// How matches are found for the given pattern and flags.
pub open spec fn planned_matcher(
    pattern: Seq<char>,
    replacement: Seq<u8>,
    fixed_strings: bool,
    ignore_case: bool,
    smart_case: bool,
    word_regexp: bool,
    multiline: bool,
    single_line: bool,
    dot_matches_newline: bool,
    no_unicode: bool,
    expand: bool,
) -> MatcherModel {
    if uses_literal_matcher(fixed_strings, ignore_case, smart_case, word_regexp, expand, replacement) {
        MatcherModel::Literal(encode_utf8(pattern))
    } else {
        MatcherModel::Regex {
            source: regex_source(pattern, fixed_strings, word_regexp),
            case_insensitive: ignore_case || (smart_case && !has_uppercase(pattern)),
            multi_line: multiline && !single_line,
            dot_matches_new_line: dot_matches_newline,
            unicode: !no_unicode,
        }
    }
}

/// With what message the regex engine refuses the matcher, if it does.
pub open spec fn matcher_refusal(m: MatcherModel) -> Option<Seq<char>> {
    match m {
        MatcherModel::Regex {
            source,
            case_insensitive,
            multi_line,
            dot_matches_new_line,
            unicode,
        } => pattern::regex_build_error(
            source,
            case_insensitive,
            multi_line,
            dot_matches_new_line,
            unicode,
        ),
        MatcherModel::Literal(_) => None,
    }
}

/// The replacement text that is used and the diagnostics, or the message
/// of the validation error: the text is validated where `expand` is set.
pub open spec fn effective_replacement(
    replacement: Seq<u8>,
    expand: bool,
    mode: ValidationMode,
) -> Result<(Seq<u8>, Seq<Seq<char>>), Seq<char>> {
    if expand {
        validation_of(replacement, mode)
    } else {
        Ok((replacement, Seq::empty()))
    }
}

/// What a replacer for the given arguments does, or why none is built.
///
/// An ambiguous replacement text is the first reason; a pattern that the
/// regex engine refuses, where a regex is used, the second.
pub open spec fn plan_for(
    pattern: Seq<char>,
    replacement: Seq<u8>,
    fixed_strings: bool,
    ignore_case: bool,
    smart_case: bool,
    word_regexp: bool,
    multiline: bool,
    single_line: bool,
    dot_matches_newline: bool,
    no_unicode: bool,
    max_replacements: usize,
    range: Option<LineRange>,
    allowed_ranges: Option<Seq<ReplacementRange>>,
    expand: bool,
    mode: ValidationMode,
) -> Result<Plan, Refusal> {
    match effective_replacement(replacement, expand, mode) {
        Err(message) => Err(Refusal::Ambiguous(message)),
        Ok((text, _)) => {
            let matcher = planned_matcher(
                pattern,
                text,
                fixed_strings,
                ignore_case,
                smart_case,
                word_regexp,
                multiline,
                single_line,
                dot_matches_newline,
                no_unicode,
                expand,
            );
            match matcher_refusal(matcher) {
                Some(message) => Err(Refusal::Pattern(message)),
                None => Ok(
                    Plan {
                        matcher,
                        replacement: text,
                        expand,
                        filters: Filters { limit: max_replacements, range, allowed: allowed_ranges },
                    },
                ),
            }
        },
    }
}

/// The ranges, if any, as a sequence.
pub open spec fn ranges_view(ranges: Option<Vec<ReplacementRange>>) -> Option<
    Seq<ReplacementRange>,
> {
    match ranges {
        Some(r) => Some(r@),
        None => None,
    }
}

/// `regex::escape`: the text with a backslash before each character that
/// the regex syntax gives a meaning to.
#[verifier::external_body]
pub(crate) fn regex_escape(pattern: &str) -> (r: String)
    ensures
        r@ == escaped(pattern@),
{
    regex::escape(pattern)
}

/// `char::is_uppercase` of std.
#[verifier::external_body]
pub(crate) fn is_uppercase(c: char) -> (r: bool)
    ensures
        r == char_is_uppercase(c),
{
    c.is_uppercase()
}

/// Whether some character of `s` is uppercase.
pub fn contains_uppercase(s: &str) -> (r: bool)
    ensures
        r == has_uppercase(s@),
{
    let n: usize = s.unicode_len();
    let mut i: usize = 0;
    while i < n
        invariant
            i <= n,
            n == s@.len(),
            forall|k: int| 0 <= k < i ==> !char_is_uppercase(#[trigger] s@[k]),
        decreases n - i,
    {
        if is_uppercase(s.get_char(i)) {
            return true;
        }
        i = i + 1;
    }
    false
}

/// Whether `bytes` holds the byte `b`.
pub fn contains_byte(bytes: &[u8], b: u8) -> (r: bool)
    ensures
        r == bytes@.contains(b),
{
    let mut i: usize = 0;
    while i < bytes.len()
        invariant
            i <= bytes@.len(),
            forall|k: int| 0 <= k < i ==> bytes@[k] != b,
        decreases bytes.len() - i,
    {
        if bytes[i] == b {
            return true;
        }
        i = i + 1;
    }
    false
}

/// The replacement text to use, with the diagnostics of its validation:
/// the text is validated where `expand` is set.
pub fn validated_text(replacement: &[u8], expand: bool, mode: ValidationMode) -> (r: Result<
    Validated,
    Error,
>)
    ensures
        match effective_replacement(replacement@, expand, mode) {
            Ok((text, warnings)) => r matches Ok(v) && v.text@ == text && v.warning_texts()
                == warnings,
            Err(message) => r matches Err(Error::AmbiguousReplacement(m)) && m@ == message,
        },
{
    if expand {
        validate_replacement(replacement, mode)
    } else {
        let v = Validated { text: slice_to_vec(replacement), warnings: Vec::new() };
        assert(v.warning_texts() =~= Seq::empty());
        Ok(v)
    }
}

/// The matcher for the given pattern and flags: a byte search where that
/// will do, else a regex, which the regex engine must accept.
pub fn build_matcher(
    pattern: &str,
    replacement: &[u8],
    fixed_strings: bool,
    ignore_case: bool,
    smart_case: bool,
    word_regexp: bool,
    multiline: bool,
    single_line: bool,
    dot_matches_newline: bool,
    no_unicode: bool,
    expand: bool,
) -> (r: Result<Matcher, Error>)
    ensures
        ({
            let planned = planned_matcher(
                pattern@,
                replacement@,
                fixed_strings,
                ignore_case,
                smart_case,
                word_regexp,
                multiline,
                single_line,
                dot_matches_newline,
                no_unicode,
                expand,
            );
            match matcher_refusal(planned) {
                Some(message) => r matches Err(Error::Regex(m)) && m@ == message,
                None => r matches Ok(m) && m@ == planned,
            }
        }),
{
    let use_literal_matcher = fixed_strings && !ignore_case && !smart_case && !word_regexp && (
    !expand || !contains_byte(replacement, DOLLAR));
    if use_literal_matcher {
        return Ok(Matcher::Literal(slice_to_vec(pattern.as_bytes())));
    }
    let body = if fixed_strings {
        regex_escape(pattern)
    } else {
        String::from_str(pattern)
    };
    let source = if word_regexp {
        let mut wrapped = concat("\\b", body.as_str());
        wrapped.append("\\b");
        wrapped
    } else {
        body
    };
    assert(source@ =~= regex_source(pattern@, fixed_strings, word_regexp));
    let case_insensitive = if ignore_case {
        true
    } else if smart_case {
        !contains_uppercase(pattern)
    } else {
        false
    };
    let p = RegexPattern {
        source,
        case_insensitive,
        multi_line: multiline && !single_line,
        dot_matches_new_line: dot_matches_newline,
        unicode: !no_unicode,
    };
    match regex_check(&p) {
        Some(message) => Err(Error::Regex(message)),
        None => Ok(Matcher::Regex(p)),
    }
}

/// Replaces the matches of one pattern in a text.
pub struct Replacer {
    matcher: Matcher,
    replacement: Vec<u8>,
    max_replacements: usize,
    range: Option<LineRange>,
    allowed_ranges: Option<Vec<ReplacementRange>>,
    expand: bool,
    warnings: Vec<String>,
}

impl Replacer {
    #[verifier::type_invariant]
    spec fn well_formed(self) -> bool {
        &&& self.matcher matches Matcher::Regex(p) ==> p.compiles()
        &&& self.allowed_ranges matches Some(a) ==> ranges_sorted(a@)
    }

    /// What the replacer does, as plain values.
    pub closed spec fn plan(self) -> Plan {
        Plan {
            matcher: self.matcher@,
            replacement: self.replacement@,
            expand: self.expand,
            filters: Filters {
                limit: self.max_replacements,
                range: self.range,
                allowed: ranges_view(self.allowed_ranges),
            },
        }
    }

    /// The diagnostics of the validation of the replacement text.
    pub closed spec fn warning_texts(self) -> Seq<Seq<char>> {
        Seq::new(self.warnings@.len(), |i: int| self.warnings@[i]@)
    }

    /// The matches of the pattern in `text`.
    pub open spec fn spans(self, text: Seq<u8>) -> Seq<MatchSpan> {
        self.plan().spans(text)
    }

    /// The number of matches in `text` that pass the filters.
    pub open spec fn match_count(self, text: Seq<u8>) -> nat {
        self.plan().match_count(text)
    }

    /// The number of matches in `text` that are replaced.
    pub open spec fn replaced_count(self, text: Seq<u8>) -> nat {
        self.plan().replaced_count(text)
    }

    /// `text` with the matches that pass the filters replaced, up to the limit.
    pub open spec fn replaced(self, text: Seq<u8>) -> Seq<u8> {
        self.plan().replaced(text)
    }

    /// A replacer for `pattern`, with strict validation of the replacement
    /// text where `expand` is set.
    pub fn new(
        pattern: &str,
        replacement: &str,
        fixed_strings: bool,
        ignore_case: bool,
        smart_case: bool,
        case_sensitive: bool,
        word_regexp: bool,
        multiline: bool,
        single_line: bool,
        dot_matches_newline: bool,
        no_unicode: bool,
        crlf: bool,
        max_replacements: usize,
        range: Option<LineRange>,
        allowed_ranges: Option<Vec<ReplacementRange>>,
        expand: bool,
    ) -> (r: Result<Self, Error>)
        ensures
            Self::built_as(
                r,
                pattern,
                replacement,
                fixed_strings,
                ignore_case,
                smart_case,
                word_regexp,
                multiline,
                single_line,
                dot_matches_newline,
                no_unicode,
                max_replacements,
                range,
                allowed_ranges,
                expand,
                ValidationMode::Strict,
            ),
    {
        Self::with_validation(
            pattern,
            replacement,
            fixed_strings,
            ignore_case,
            smart_case,
            case_sensitive,
            word_regexp,
            multiline,
            single_line,
            dot_matches_newline,
            no_unicode,
            crlf,
            max_replacements,
            range,
            allowed_ranges,
            expand,
            ValidationMode::Strict,
        )
    }

    /// Whether `r` is what building a replacer from the given arguments
    /// results in: the error that tells why none is built, or a replacer
    /// that does what is planned, with the ranges of its allowlist ordered,
    /// and that holds the diagnostics of the validation.
    pub open spec fn built_as(
        r: Result<Self, Error>,
        pattern: &str,
        replacement: &str,
        fixed_strings: bool,
        ignore_case: bool,
        smart_case: bool,
        word_regexp: bool,
        multiline: bool,
        single_line: bool,
        dot_matches_newline: bool,
        no_unicode: bool,
        max_replacements: usize,
        range: Option<LineRange>,
        allowed_ranges: Option<Vec<ReplacementRange>>,
        expand: bool,
        mode: ValidationMode,
    ) -> bool {
        match plan_for(
            pattern@,
            replacement.spec_bytes(),
            fixed_strings,
            ignore_case,
            smart_case,
            word_regexp,
            multiline,
            single_line,
            dot_matches_newline,
            no_unicode,
            max_replacements,
            range,
            ranges_view(allowed_ranges),
            expand,
            mode,
        ) {
            Err(Refusal::Ambiguous(message)) => r matches Err(Error::AmbiguousReplacement(m)) && m@
                == message,
            Err(Refusal::Pattern(message)) => r matches Err(Error::Regex(m)) && m@ == message,
            Ok(plan) => r matches Ok(rep) && {
                &&& rep.plan().same_up_to_order(plan)
                &&& rep.plan().filters.allowed matches Some(a) ==> ranges_sorted(a)
                &&& effective_replacement(replacement.spec_bytes(), expand, mode) matches Ok(
                    (_, warnings),
                ) && rep.warning_texts() == warnings
            },
        }
    }

    /// A replacer for `pattern`, with the replacement text validated in `mode`
    /// where `expand` is set.
    pub fn with_validation(
        pattern: &str,
        replacement: &str,
        fixed_strings: bool,
        ignore_case: bool,
        smart_case: bool,
        case_sensitive: bool,
        word_regexp: bool,
        multiline: bool,
        single_line: bool,
        dot_matches_newline: bool,
        no_unicode: bool,
        crlf: bool,
        max_replacements: usize,
        range: Option<LineRange>,
        allowed_ranges: Option<Vec<ReplacementRange>>,
        expand: bool,
        mode: ValidationMode,
    ) -> (r: Result<Self, Error>)
        ensures
            Self::built_as(
                r,
                pattern,
                replacement,
                fixed_strings,
                ignore_case,
                smart_case,
                word_regexp,
                multiline,
                single_line,
                dot_matches_newline,
                no_unicode,
                max_replacements,
                range,
                allowed_ranges,
                expand,
                mode,
            ),
    {
        let (text, warnings) = match validated_text(replacement.as_bytes(), expand, mode) {
            Ok(v) => (v.text, v.warnings),
            Err(e) => {
                return Err(e);
            },
        };
        let matcher = match build_matcher(
            pattern,
            text.as_slice(),
            fixed_strings,
            ignore_case,
            smart_case,
            word_regexp,
            multiline,
            single_line,
            dot_matches_newline,
            no_unicode,
            expand,
        ) {
            Ok(m) => m,
            Err(e) => {
                return Err(e);
            },
        };
        let allowed = match allowed_ranges {
            Some(given) => Some(sort_ranges(&given)),
            None => None,
        };
        let rep = Replacer {
            matcher,
            replacement: text,
            max_replacements,
            range,
            allowed_ranges: allowed,
            expand,
            warnings,
        };
        proof {
            assert(rep.warning_texts() =~= Seq::new(warnings@.len(), |i: int| warnings@[i]@));
            let eff = effective_replacement(replacement.spec_bytes(), expand, mode);
            assert(eff is Ok);
            assert(eff->Ok_0.0 == text@);
            let planned = planned_matcher(
                pattern@,
                text@,
                fixed_strings,
                ignore_case,
                smart_case,
                word_regexp,
                multiline,
                single_line,
                dot_matches_newline,
                no_unicode,
                expand,
            );
            assert(matcher_refusal(planned) is None);
            assert(rep.matcher@ == planned);
            let plan = Plan {
                matcher: planned,
                replacement: text@,
                expand,
                filters: Filters { limit: max_replacements, range, allowed: ranges_view(allowed_ranges) },
            };
            assert(rep.plan().same_up_to_order(plan));
        }
        Ok(rep)
    }

    /// The diagnostics of the validation of the replacement text: one line
    /// for each reference that was rewritten.
    pub fn warnings(&self) -> (w: &Vec<String>)
        ensures
            w@.len() == self.warning_texts().len(),
            forall|i: int| 0 <= i < w@.len() ==> (#[trigger] w@[i])@ == self.warning_texts()[i],
    {
        &self.warnings
    }

    /// The matches of the pattern in `text`.
    pub fn find_spans(&self, text: &[u8]) -> (spans: Vec<MatchSpan>)
        ensures
            spans@ == self.spans(text@),
            splice::spans_ordered(spans@, text@.len() as int),
    {
        proof {
            use_type_invariant(self);
        }
        match &self.matcher {
            Matcher::Regex(p) => find_regex_spans(p, text),
            Matcher::Literal(needle) => find_literal_spans(text, needle.as_slice()),
        }
    }

    /// The number of matches in `text` that pass the line range and the
    /// allowlist. The limit plays no part.
    pub fn count_matches(&self, text: &[u8]) -> (count: usize)
        ensures
            count == self.match_count(text@),
    {
        proof {
            use_type_invariant(self);
        }
        let spans = self.find_spans(text);
        let count = count_spans(text, &spans, &self.range, &self.allowed_ranges);
        proof {
            assert(self.plan().filters == splice::filters_of(
                self.max_replacements,
                self.range,
                self.allowed_ranges,
            ));
        }
        count
    }

    /// Replaces the matches in `text` that pass the filters, up to the limit,
    /// and returns the new text with the number of replacements made.
    pub fn replace_with_count(&self, text: &[u8]) -> (r: (Vec<u8>, usize))
        ensures
            r.0@ == self.replaced(text@),
            r.1 == self.replaced_count(text@),
    {
        proof {
            use_type_invariant(self);
        }
        let spans = self.find_spans(text);
        let ghost f = splice::filters_of(self.max_replacements, self.range, self.allowed_ranges);
        proof {
            assert(self.plan().filters == f);
        }
        match &self.matcher {
            Matcher::Regex(p) if self.expand => {
                let expansions = regex_expand(p, text, self.replacement.as_slice());
                let r = replace_spans(
                    text,
                    &spans,
                    self.replacement.as_slice(),
                    Some(&expansions),
                    self.max_replacements,
                    &self.range,
                    &self.allowed_ranges,
                );
                proof {
                    assert(replacements_of(
                        spans@.len(),
                        self.replacement@,
                        Some(expansions@),
                    ) =~= self.plan().replacements(text@));
                }
                r
            },
            _ => {
                let r = replace_spans(
                    text,
                    &spans,
                    self.replacement.as_slice(),
                    None,
                    self.max_replacements,
                    &self.range,
                    &self.allowed_ranges,
                );
                proof {
                    assert(replacements_of(spans@.len(), self.replacement@, None)
                        =~= self.plan().replacements(text@));
                }
                r
            },
        }
    }
}

} // verus!
