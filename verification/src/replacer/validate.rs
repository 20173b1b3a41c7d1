//! Capture references in a replacement text, and the ambiguous ones.
//!
//! A reference is `$` followed by a name in braces, or by the longest run of
//! ASCII letters, digits and underscores. `$$` stands for a dollar sign. An
//! unbraced reference is ambiguous when its name starts with digits and goes
//! on with other characters: `$1foo` may be meant as group `1` or as group
//! `1foo`.

use vstd::prelude::*;
use vstd::slice::slice_to_vec;
use crate::error::Error;
use crate::model::ValidationMode;
use crate::replacer::splice::{
    MatchSpan,
    Filters,
    accepted,
    applied,
    lemma_accepted_unfiltered,
    replace_spans,
    spans_ordered,
    spliced,
};
use crate::scan::{
    ByteClass,
    CLOSE_BRACE,
    DOLLAR,
    OPEN_BRACE,
    lemma_run_end,
    lemma_run_end_shift,
    run_end,
    scan_run,
    valid_capture_char,
};
use crate::text::{concat, digit_chars, digits_to_string};

verus! {

/// Whether `b` may stand in the name of an unbraced reference.
pub fn is_valid_capture_char(b: u8) -> (r: bool)
    ensures
        r == valid_capture_char(b),
{
    (48 <= b && b <= 57) || (97 <= b && b <= 122) || (65 <= b && b <= 90) || b == 95
}

/// A capture reference in a replacement text: the `$` stands at `start`, the
/// name (with its braces, if braced) in `[start + 1, end)`.
#[derive(Debug, Clone, Copy, PartialEq, Eq)]
pub struct Capture {
    pub start: usize,
    pub end: usize,
    pub braced: bool,
}

/// The first capture reference of `s` whose `$` stands at `pos` or later.
pub open spec fn next_capture(s: Seq<u8>, pos: int) -> Option<Capture>
    decreases s.len() - pos,
{
    if pos < 0 || pos >= s.len() {
        None
    } else if s[pos] != DOLLAR || pos + 1 >= s.len() {
        next_capture(s, pos + 1)
    } else if s[pos + 1] == DOLLAR {
        next_capture(s, pos + 2)
    } else if s[pos + 1] == OPEN_BRACE {
        let close = run_end(s, pos + 2, s.len() as int, ByteClass::Braced);
        if close < s.len() {
            Some(Capture { start: pos as usize, end: (close + 1) as usize, braced: true })
        } else {
            next_capture(s, pos + 1)
        }
    } else {
        let end = run_end(s, pos + 1, s.len() as int, ByteClass::Name);
        if end > pos + 1 {
            Some(Capture { start: pos as usize, end: end as usize, braced: false })
        } else {
            next_capture(s, pos + 1)
        }
    }
}

/// A reference found from `pos` on starts there or later, is not empty and
/// lies in the text.
pub proof fn lemma_next_capture(s: Seq<u8>, pos: int)
    requires
        0 <= pos,
        s.len() <= usize::MAX,
    ensures
        next_capture(s, pos) matches Some(c) ==> pos <= c.start && c.start + 1 < c.end <= s.len()
            && s[c.start as int] == DOLLAR,
    decreases s.len() - pos,
{
    if pos < s.len() {
        if s[pos] != DOLLAR || pos + 1 >= s.len() {
            lemma_next_capture(s, pos + 1);
        } else if s[pos + 1] == DOLLAR {
            lemma_next_capture(s, pos + 2);
        } else if s[pos + 1] == OPEN_BRACE {
            lemma_run_end(s, pos + 2, s.len() as int, ByteClass::Braced);
            lemma_next_capture(s, pos + 1);
        } else {
            lemma_run_end(s, pos + 1, s.len() as int, ByteClass::Name);
            lemma_next_capture(s, pos + 1);
        }
    }
}

/// The braced name at the head of `bytes`, with its braces: the bytes up to
/// the first closing brace. `None` where no brace closes it.
pub fn parse_braced_reference(bytes: &[u8]) -> (name: Option<&[u8]>)
    requires
        bytes@.len() > 0,
        bytes@[0] == OPEN_BRACE,
    ensures
        ({
            let close = run_end(bytes@, 1, bytes@.len() as int, ByteClass::Braced);
            match name {
                Some(n) => 1 <= close < bytes@.len() && n@ == bytes@.subrange(0, close + 1)
                    && n@.len() == close + 1,
                None => close == bytes@.len(),
            }
        }),
{
    let close = scan_run(bytes, 1, bytes.len(), ByteClass::Braced);
    if close >= bytes.len() {
        return None;
    }
    Some(&bytes[0..close + 1])
}

/// The unbraced name at the head of `bytes`: its longest run of name
/// characters. `None` where that run is empty.
pub fn parse_unbraced_reference(bytes: &[u8]) -> (name: Option<&[u8]>)
    ensures
        ({
            let end = run_end(bytes@, 0, bytes@.len() as int, ByteClass::Name);
            match name {
                Some(n) => 0 < end <= bytes@.len() && n@ == bytes@.subrange(0, end) && n@.len()
                    == end,
                None => end == 0,
            }
        }),
{
    let end = scan_run(bytes, 0, bytes.len(), ByteClass::Name);
    if end == 0 {
        return None;
    }
    Some(&bytes[0..end])
}

/// Walks the capture references of a replacement text from left to right.
pub struct CaptureIter<'a> {
    text: &'a [u8],
    pos: usize,
}

impl<'a> CaptureIter<'a> {
    /// The text that is walked.
    pub closed spec fn text(self) -> Seq<u8> {
        self.text@
    }

    /// The offset from which the next reference is sought.
    pub closed spec fn pos(self) -> int {
        self.pos as int
    }

    pub fn new(text: &'a [u8]) -> (it: Self)
        ensures
            it.text() == text@,
            it.pos() == 0,
    {
        CaptureIter { text, pos: 0 }
    }

    /// The next capture reference, if there is one; the walk goes on behind it.
    pub fn next(&mut self) -> (c: Option<Capture>)
        requires
            old(self).pos() <= old(self).text().len(),
        ensures
            final(self).text() == old(self).text(),
            c == next_capture(old(self).text(), old(self).pos()),
            c matches Some(found) ==> final(self).pos() == found.end,
            c is None ==> final(self).pos() == old(self).text().len(),
            old(self).pos() <= final(self).pos() <= old(self).text().len(),
    {
        let text = self.text;
        let len: usize = text.len();
        let ghost start = self.pos as int;
        proof {
            lemma_next_capture(text@, start);
        }
        while self.pos < len
            invariant
                self.text == text,
                text@ == old(self).text(),
                start == old(self).pos(),
                len == text@.len(),
                start <= self.pos <= len,
                next_capture(text@, start) == next_capture(text@, self.pos as int),
            decreases len - self.pos,
        {
            let pos: usize = self.pos;
            if text[pos] != DOLLAR || pos + 1 >= len {
                self.pos = pos + 1;
            } else if text[pos + 1] == DOLLAR {
                self.pos = pos + 2;
            } else if text[pos + 1] == OPEN_BRACE {
                let rest = &text[pos + 1..len];
                proof {
                    lemma_run_end_shift(text@, pos + 1, 1, ByteClass::Braced);
                }
                match parse_braced_reference(rest) {
                    Some(name) => {
                        let end: usize = pos + 1 + name.len();
                        self.pos = end;
                        return Some(Capture { start: pos, end, braced: true });
                    },
                    None => {
                        self.pos = pos + 1;
                    },
                }
            } else {
                let rest = &text[pos + 1..len];
                proof {
                    lemma_run_end_shift(text@, pos + 1, 0, ByteClass::Name);
                }
                match parse_unbraced_reference(rest) {
                    Some(name) => {
                        let end: usize = pos + 1 + name.len();
                        self.pos = end;
                        return Some(Capture { start: pos, end, braced: false });
                    },
                    None => {
                        self.pos = pos + 1;
                    },
                }
            }
        }
        None
    }
}

/// Where the leading digits of the name of `c` end.
pub open spec fn digits_end(s: Seq<u8>, c: Capture) -> int {
    run_end(s, c.start + 1, c.end as int, ByteClass::Digit)
}

/// The reference is unbraced, its name starts with a digit and goes on
/// behind its leading digits.
pub open spec fn is_ambiguous(s: Seq<u8>, c: Capture) -> bool {
    !c.braced && c.start + 1 < digits_end(s, c) < c.end
}

/// The ambiguous references of `s` from `pos` on, in order.
pub open spec fn ambiguous_from(s: Seq<u8>, pos: int) -> Seq<Capture>
    decreases s.len() - pos,
{
    match next_capture(s, pos) {
        Some(c) => if pos <= c.start < c.end <= s.len() {
            if is_ambiguous(s, c) {
                seq![c] + ambiguous_from(s, c.end as int)
            } else {
                ambiguous_from(s, c.end as int)
            }
        } else {
            Seq::empty()
        },
        None => Seq::empty(),
    }
}

/// The ambiguous references of `s`, in order.
pub open spec fn ambiguous_captures(s: Seq<u8>) -> Seq<Capture> {
    ambiguous_from(s, 0)
}

/// The leading digits of the name of `c`.
pub open spec fn leading_digits(s: Seq<u8>, c: Capture) -> Seq<u8> {
    s.subrange(c.start + 1, digits_end(s, c))
}

/// The reference with its leading digits in braces: `$1foo` as `${1}foo`.
pub open spec fn braced_form(s: Seq<u8>, c: Capture) -> Seq<u8> {
    seq![DOLLAR, OPEN_BRACE] + leading_digits(s, c) + seq![CLOSE_BRACE] + s.subrange(
        digits_end(s, c),
        c.end as int,
    )
}

/// The spans of the given references.
pub open spec fn capture_spans(captures: Seq<Capture>) -> Seq<MatchSpan> {
    Seq::new(captures.len(), |i: int| MatchSpan { start: captures[i].start, end: captures[i].end })
}

/// The braced forms of the given references.
pub open spec fn braced_forms(s: Seq<u8>, captures: Seq<Capture>) -> Seq<Seq<u8>> {
    Seq::new(captures.len(), |i: int| braced_form(s, captures[i]))
}

/// The text with each ambiguous reference in its braced form.
pub open spec fn rewritten(s: Seq<u8>) -> Seq<u8> {
    let captures = ambiguous_captures(s);
    spliced(
        s,
        capture_spans(captures),
        braced_forms(s, captures),
        Seq::new(captures.len(), |i: int| i),
    )
}

/// What strict validation says of an ambiguous reference with these digits.
pub open spec fn strict_message(digits: Seq<u8>) -> Seq<char> {
    "Ambiguous capture group reference `$"@ + digit_chars(digits)
        + "` followed by non-digit characters. Use `${"@ + digit_chars(digits)
        + "}` to disambiguate."@
}

/// What a rewrite of an ambiguous reference with these digits is reported as.
pub open spec fn warn_message(digits: Seq<u8>) -> Seq<char> {
    "WARN: Ambiguous capture group reference `$"@ + digit_chars(digits) + "` rewritten to `${"@
        + digit_chars(digits) + "}`."@
}

/// The messages of the rewrites of the given references.
pub open spec fn warn_messages(s: Seq<u8>, captures: Seq<Capture>) -> Seq<Seq<char>> {
    Seq::new(captures.len(), |i: int| warn_message(leading_digits(s, captures[i])))
}

/// A validated replacement text, with one diagnostic line for each rewrite.
#[derive(Debug, Clone, PartialEq, Eq)]
pub struct Validated {
    pub text: Vec<u8>,
    pub warnings: Vec<String>,
}

impl Validated {
    pub open spec fn warning_texts(self) -> Seq<Seq<char>> {
        Seq::new(self.warnings@.len(), |i: int| self.warnings@[i]@)
    }
}

/// What validation of `s` in `mode` results in: the text to use and the
/// diagnostics, or the message of the error.
#[verifier::opaque]
pub open spec fn validation_of(s: Seq<u8>, mode: ValidationMode) -> Result<
    (Seq<u8>, Seq<Seq<char>>),
    Seq<char>,
> {
    let captures = ambiguous_captures(s);
    match mode {
        ValidationMode::Off => Ok((s, Seq::empty())),
        ValidationMode::Strict => if captures.len() == 0 {
            Ok((s, Seq::empty()))
        } else {
            Err(strict_message(leading_digits(s, captures[0])))
        },
        ValidationMode::Warn => Ok((rewritten(s), warn_messages(s, captures))),
    }
}

fn strict_text(digits: &[u8]) -> (m: String)
    requires
        crate::text::all_digits(digits@),
    ensures
        m@ == strict_message(digits@),
{
    let d = digits_to_string(digits);
    let mut m = concat("Ambiguous capture group reference `$", d.as_str());
    m.append("` followed by non-digit characters. Use `${");
    m.append(d.as_str());
    m.append("}` to disambiguate.");
    m
}

fn warn_text(digits: &[u8]) -> (m: String)
    requires
        crate::text::all_digits(digits@),
    ensures
        m@ == warn_message(digits@),
{
    let d = digits_to_string(digits);
    let mut m = concat("WARN: Ambiguous capture group reference `$", d.as_str());
    m.append("` rewritten to `${");
    m.append(d.as_str());
    m.append("}`.");
    m
}

/// Checks a replacement text for ambiguous capture references.
///
/// In strict mode the first ambiguous reference is an error. In warn mode
/// each one is rewritten to its braced form and reported. With validation
/// off the text is passed through.
pub fn validate_replacement(replacement: &[u8], mode: ValidationMode) -> (r: Result<
    Validated,
    Error,
>)
    ensures
        match validation_of(replacement@, mode) {
            Ok((text, warnings)) => r matches Ok(v) && v.text@ == text && v.warning_texts()
                == warnings,
            Err(message) => r matches Err(Error::AmbiguousReplacement(m)) && m@ == message,
        },
{
    reveal(validation_of);
    let len: usize = replacement.len();
    if mode == ValidationMode::Off {
        let v = Validated { text: slice_to_vec(replacement), warnings: Vec::new() };
        assert(v.warning_texts() =~= Seq::empty());
        return Ok(v);
    }
    let mut spans: Vec<MatchSpan> = Vec::new();
    let mut forms: Vec<Vec<u8>> = Vec::new();
    let mut warnings: Vec<String> = Vec::new();
    let ghost mut found: Seq<Capture> = Seq::empty();
    let mut it = CaptureIter::new(replacement);
    let mut done = false;
    while !done
        invariant
            len == replacement@.len(),
            mode != ValidationMode::Off,
            it.text() == replacement@,
            0 <= it.pos() <= len,
            done ==> it.pos() == len,
            ambiguous_captures(replacement@) == found + ambiguous_from(replacement@, it.pos()),
            mode == ValidationMode::Strict ==> found.len() == 0,
            spans@ == capture_spans(found),
            forms@.len() == found.len(),
            forall|i: int|
                0 <= i < found.len() ==> (#[trigger] forms@[i])@ == braced_form(
                    replacement@,
                    found[i],
                ),
            warnings@.len() == found.len(),
            forall|i: int|
                0 <= i < found.len() ==> (#[trigger] warnings@[i])@ == warn_message(
                    leading_digits(replacement@, found[i]),
                ),
            spans_ordered(spans@, len as int),
            forall|i: int| 0 <= i < spans@.len() ==> (#[trigger] spans@[i]).end <= it.pos(),
        decreases len - it.pos() + if done { 0int } else { 1int },
    {
        let ghost before = it.pos();
        proof {
            lemma_next_capture(replacement@, before);
        }
        match it.next() {
            None => {
                done = true;
            },
            Some(c) => {
                let digits_to: usize = scan_run(replacement, c.start + 1, c.end, ByteClass::Digit);
                if !c.braced && digits_to > c.start + 1 && digits_to < c.end {
                    assert(is_ambiguous(replacement@, c));
                    proof {
                        lemma_run_end(replacement@, c.start + 1, c.end as int, ByteClass::Digit);
                    }
                    let digits = &replacement[c.start + 1..digits_to];
                    if mode == ValidationMode::Strict {
                        reveal(validation_of);
                        assert(ambiguous_captures(replacement@)[0] == c);
                        return Err(Error::AmbiguousReplacement(strict_text(digits)));
                    }
                    let mut form: Vec<u8> = Vec::new();
                    form.push(DOLLAR);
                    form.push(OPEN_BRACE);
                    form.extend_from_slice(digits);
                    form.push(CLOSE_BRACE);
                    form.extend_from_slice(&replacement[digits_to..c.end]);
                    assert(form@ =~= braced_form(replacement@, c));
                    let ghost old_found = found;
                    proof {
                        found = found.push(c);
                        assert(found + ambiguous_from(replacement@, c.end as int) =~= old_found + (
                        seq![c] + ambiguous_from(replacement@, c.end as int)));
                    }
                    spans.push(MatchSpan { start: c.start, end: c.end });
                    forms.push(form);
                    warnings.push(warn_text(digits));
                    assert(spans@ =~= capture_spans(found));
                }
            },
        }
    }
    proof {
        assert(ambiguous_from(replacement@, it.pos()) =~= Seq::empty());
        assert(found =~= ambiguous_captures(replacement@));
    }
    if spans.len() == 0 {
        let v = Validated { text: slice_to_vec(replacement), warnings };
        proof {
            assert(v.warning_texts() =~= Seq::empty());
            assert(rewritten(replacement@) =~= replacement@);
        }
        return Ok(v);
    }
    let none_range: Option<crate::model::LineRange> = None;
    let none_allowed: Option<Vec<crate::model::ReplacementRange>> = None;
    let empty: Vec<u8> = Vec::new();
    let (text, _) = replace_spans(
        replacement,
        &spans,
        empty.as_slice(),
        Some(&forms),
        0,
        &none_range,
        &none_allowed,
    );
    let v = Validated { text, warnings };
    proof {
        let f = Filters { limit: 0, range: None, allowed: None };
        lemma_accepted_unfiltered(replacement@, spans@, f, spans@.len() as int);
        assert(applied(replacement@, spans@, f) == accepted(replacement@, spans@, f));
        assert(crate::replacer::splice::replacements_of(
            spans@.len(),
            empty@,
            Some(forms@),
        ) =~= braced_forms(replacement@, found));
        assert(v.warning_texts() =~= warn_messages(replacement@, found));
    }
    Ok(v)
}

} // verus!
