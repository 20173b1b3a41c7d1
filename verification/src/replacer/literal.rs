//! The literal matcher: where a byte string occurs in a text.

use vstd::prelude::*;
use crate::replacer::splice::{MatchSpan, spans_ordered};

verus! {

/// `needle` stands in `text` at offset `p`.
pub open spec fn occurs_at(text: Seq<u8>, needle: Seq<u8>, p: int) -> bool {
    &&& 0 <= p
    &&& p + needle.len() <= text.len()
    &&& text.subrange(p, p + needle.len()) == needle
}

/// `p` is the least offset at or after `from` at which `needle` occurs.
pub open spec fn is_next_occurrence(text: Seq<u8>, needle: Seq<u8>, from: int, p: int) -> bool {
    &&& from <= p
    &&& occurs_at(text, needle, p)
    &&& forall|q: int| from <= q < p ==> !occurs_at(text, needle, q)
}

/// How far the search moves on after a match: past the match, and by one
/// byte for an empty needle.
pub open spec fn step_of(needle: Seq<u8>) -> int {
    if needle.len() == 0 {
        1
    } else {
        needle.len() as int
    }
}

/// The offsets of the occurrences of `needle` in `text` from `from` on,
/// found from left to right, each search starting where the last match
/// ended.
pub open spec fn literal_starts_from(text: Seq<u8>, needle: Seq<u8>, from: int) -> Seq<usize>
    decreases text.len() + 1 - from,
{
    if exists|p: int| is_next_occurrence(text, needle, from, p) {
        let p = choose|p: int| is_next_occurrence(text, needle, from, p);
        if from <= p && p + needle.len() <= text.len() && p <= usize::MAX {
            seq![p as usize] + literal_starts_from(text, needle, p + step_of(needle))
        } else {
            Seq::empty()
        }
    } else {
        Seq::empty()
    }
}

/// The offsets of the non-overlapping occurrences of `needle` in `text`.
pub open spec fn literal_starts(text: Seq<u8>, needle: Seq<u8>) -> Seq<usize> {
    literal_starts_from(text, needle, 0)
}

/// The spans of the matches that start at `starts`, each `len` bytes long.
pub open spec fn spans_at(starts: Seq<usize>, len: nat) -> Seq<MatchSpan> {
    Seq::new(
        starts.len(),
        |i: int| MatchSpan { start: starts[i], end: (starts[i] + len) as usize },
    )
}

/// The spans of the non-overlapping occurrences of `needle` in `text`.
pub open spec fn literal_spans(text: Seq<u8>, needle: Seq<u8>) -> Seq<MatchSpan> {
    spans_at(literal_starts(text, needle), needle.len())
}

/// Each offset found is an occurrence at or after `from`, and each next one
/// lies at least one step further.
pub proof fn lemma_literal_starts(text: Seq<u8>, needle: Seq<u8>, from: int)
    requires
        0 <= from,
        text.len() <= usize::MAX,
    ensures
        forall|i: int|
            0 <= i < literal_starts_from(text, needle, from).len() ==> {
                &&& from <= #[trigger] literal_starts_from(text, needle, from)[i]
                &&& occurs_at(text, needle, literal_starts_from(text, needle, from)[i] as int)
            },
        forall|i: int, j: int|
            0 <= i < j < literal_starts_from(text, needle, from).len() ==> literal_starts_from(
                text,
                needle,
                from,
            )[i] + step_of(needle) <= literal_starts_from(text, needle, from)[j],
        (forall|q: int| from <= q ==> !occurs_at(text, needle, q)) <==> literal_starts_from(
            text,
            needle,
            from,
        ).len() == 0,
    decreases text.len() + 1 - from,
{
    let all = literal_starts_from(text, needle, from);
    if exists|p: int| is_next_occurrence(text, needle, from, p) {
        let p = choose|p: int| is_next_occurrence(text, needle, from, p);
        let rest = literal_starts_from(text, needle, p + step_of(needle));
        lemma_literal_starts(text, needle, p + step_of(needle));
        assert(all == seq![p as usize] + rest);
        assert forall|i: int| 0 <= i < all.len() implies from <= #[trigger] all[i] && occurs_at(
            text,
            needle,
            all[i] as int,
        ) by {
            if i > 0 {
                assert(all[i] == rest[i - 1]);
            }
        }
        assert forall|i: int, j: int| 0 <= i < j < all.len() implies all[i] + step_of(needle)
            <= all[j] by {
            assert(all[j] == rest[j - 1]);
            if i > 0 {
                assert(all[i] == rest[i - 1]);
            }
        }
    } else {
        assert forall|q: int| from <= q implies !occurs_at(text, needle, q) by {
            if occurs_at(text, needle, q) {
                lemma_least_occurrence(text, needle, from, q);
            }
        }
    }
}

/// Where `needle` occurs at or after `from`, it has a first occurrence there.
pub proof fn lemma_least_occurrence(text: Seq<u8>, needle: Seq<u8>, from: int, q: int)
    requires
        from <= q,
        occurs_at(text, needle, q),
    ensures
        exists|p: int| is_next_occurrence(text, needle, from, p),
    decreases q - from,
{
    if exists|r: int| from <= r < q && occurs_at(text, needle, r) {
        let r = choose|r: int| from <= r < q && occurs_at(text, needle, r);
        lemma_least_occurrence(text, needle, from, r);
    } else {
        assert(is_next_occurrence(text, needle, from, q));
    }
}

/// The spans of the literal matcher are ordered and lie in the text.
pub proof fn lemma_literal_spans_ordered(text: Seq<u8>, needle: Seq<u8>)
    requires
        text.len() <= usize::MAX,
    ensures
        spans_ordered(literal_spans(text, needle), text.len() as int),
        literal_spans(text, needle).len() == literal_starts(text, needle).len(),
{
    lemma_literal_starts(text, needle, 0);
}

/// The offsets at which `needle` occurs in `text`, as `memchr::memmem::find_iter`
/// yields them: from left to right, the search for the next one starting
/// behind the last match, or one byte on where the needle is empty.
#[verifier::external_body]
pub(crate) fn find_literal(text: &[u8], needle: &[u8]) -> (starts: Vec<usize>)
    ensures
        starts@ == literal_starts(text@, needle@),
{
    memchr::memmem::find_iter(text, needle).collect()
}

/// The spans of the non-overlapping occurrences of `needle` in `text`.
pub fn find_literal_spans(text: &[u8], needle: &[u8]) -> (spans: Vec<MatchSpan>)
    ensures
        spans@ == literal_spans(text@, needle@),
        spans_ordered(spans@, text@.len() as int),
{
    let starts = find_literal(text, needle);
    let len: usize = text.len();
    proof {
        lemma_literal_starts(text@, needle@, 0);
        lemma_literal_spans_ordered(text@, needle@);
    }
    let mut spans: Vec<MatchSpan> = Vec::new();
    let mut i: usize = 0;
    while i < starts.len()
        invariant
            i <= starts@.len(),
            len == text@.len(),
            starts@ == literal_starts(text@, needle@),
            forall|k: int|
                0 <= k < starts@.len() ==> occurs_at(text@, needle@, (#[trigger] starts@[k]) as int),
            spans@ == spans_at(starts@, needle@.len()).take(i as int),
        decreases starts.len() - i,
    {
        let start = starts[i];
        assert(occurs_at(text@, needle@, start as int));
        spans.push(MatchSpan { start, end: start + needle.len() });
        i = i + 1;
        assert(spans@ =~= spans_at(starts@, needle@.len()).take(i as int));
    }
    assert(spans@ =~= spans_at(starts@, needle@.len()));
    spans
}

} // verus!
