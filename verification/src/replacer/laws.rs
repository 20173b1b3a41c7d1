//! What holds of every replacement.

use vstd::prelude::*;
use crate::replacer::Plan;
use crate::replacer::allowlist::{hits_allowlist, lemma_hits_same_ranges, same_ranges};
use crate::replacer::lines::{lemma_same_line, line_of};
use crate::replacer::literal::{lemma_literal_starts, literal_starts, occurs_at};
use crate::replacer::splice::{
    Filters,
    MatchSpan,
    accepted,
    accepted_upto,
    applied,
    lemma_accepted_upto_ascending,
    picked_end,
    spans_ordered,
    spliced_head,
};

verus! {

/// Which spans are accepted does not depend on the order of the allowlist.
pub proof fn lemma_accepted_same_ranges(
    text: Seq<u8>,
    spans: Seq<MatchSpan>,
    f: Filters,
    g: Filters,
    n: int,
)
    requires
        f.range == g.range,
        match (f.allowed, g.allowed) {
            (None, None) => true,
            (Some(a), Some(b)) => same_ranges(a, b),
            _ => false,
        },
    ensures
        accepted_upto(text, spans, f, n) == accepted_upto(text, spans, g, n),
    decreases n,
{
    if n > 0 {
        lemma_accepted_same_ranges(text, spans, f, g, n - 1);
        match (f.allowed, g.allowed) {
            (Some(a), Some(b)) => {
                lemma_hits_same_ranges(a, b, spans[n - 1].start as int, spans[n - 1].end as int);
            },
            _ => {},
        }
    }
}

/// Two plans that differ at most in the order of their allowlists replace
/// the same matches by the same texts.
pub proof fn lemma_same_plans(a: Plan, b: Plan, text: Seq<u8>)
    requires
        a.same_up_to_order(b),
    ensures
        a.replaced(text) == b.replaced(text),
        a.replaced_count(text) == b.replaced_count(text),
        a.match_count(text) == b.match_count(text),
{
    let spans = a.spans(text);
    lemma_accepted_same_ranges(text, spans, a.filters, b.filters, spans.len() as int);
    assert(a.replacements(text) =~= b.replacements(text));
}

/// Count correctness: no more matches are replaced than pass the filters;
/// all of them without a limit, and as many as the limit allows with one.
pub proof fn law_count_bounds(plan: Plan, text: Seq<u8>)
    ensures
        plan.replaced_count(text) <= plan.match_count(text),
        plan.filters.limit == 0 ==> plan.replaced_count(text) == plan.match_count(text),
        plan.filters.limit > 0 ==> plan.replaced_count(text) == if plan.match_count(text)
            < plan.filters.limit {
            plan.match_count(text)
        } else {
            plan.filters.limit as nat
        },
{
}

/// Every match that is replaced passes the filters: it starts on a line of
/// the line range, where one is set, and intersects a range of the
/// allowlist, where one is set.
pub proof fn law_replaced_matches_pass_filters(plan: Plan, text: Seq<u8>, k: int)
    requires
        0 <= k < applied(text, plan.spans(text), plan.filters).len(),
    ensures
        ({
            let span = plan.spans(text)[applied(text, plan.spans(text), plan.filters)[k]];
            &&& plan.filters.range matches Some(range) ==> range.contains(
                line_of(text, span.start as int),
            )
            &&& plan.filters.allowed matches Some(allowed) ==> hits_allowlist(
                allowed,
                span.start as int,
                span.end as int,
            )
        }),
{
    let spans = plan.spans(text);
    lemma_accepted_upto_ascending(text, spans, plan.filters, spans.len() as int);
}

/// The offset lies in one of the picked spans.
pub open spec fn in_picked(spans: Seq<MatchSpan>, picked: Seq<int>, j: int) -> bool {
    exists|k: int|
        0 <= k < picked.len() && spans[#[trigger] picked[k]].start <= j < spans[picked[k]].end
}

/// The picked indices are indices of spans, in ascending order.
pub open spec fn picked_in_order(spans: Seq<MatchSpan>, picked: Seq<int>) -> bool {
    &&& forall|k: int| 0 <= k < picked.len() ==> 0 <= #[trigger] picked[k] < spans.len()
    &&& forall|k: int, m: int| 0 <= k < m < picked.len() ==> picked[k] < picked[m]
}

/// Each picked span is replaced by a text of its own length.
pub open spec fn same_lengths(spans: Seq<MatchSpan>, reps: Seq<Seq<u8>>, picked: Seq<int>) -> bool {
    forall|k: int|
        0 <= k < picked.len() ==> reps[#[trigger] picked[k]].len() == spans[picked[k]].end
            - spans[picked[k]].start
}

/// Where each picked span is replaced by a text of its own length, the
/// output up to the last picked span is as long as the text up to there,
/// and equal to it outside the picked spans.
pub proof fn lemma_spliced_head_keeps(
    text: Seq<u8>,
    spans: Seq<MatchSpan>,
    reps: Seq<Seq<u8>>,
    picked: Seq<int>,
)
    requires
        spans_ordered(spans, text.len() as int),
        picked_in_order(spans, picked),
        same_lengths(spans, reps, picked),
    ensures
        spliced_head(text, spans, reps, picked).len() == picked_end(spans, picked),
        0 <= picked_end(spans, picked) <= text.len(),
        forall|j: int|
            0 <= j < picked_end(spans, picked) && !in_picked(spans, picked, j)
                ==> #[trigger] spliced_head(text, spans, reps, picked)[j] == text[j],
    decreases picked.len(),
{
    if picked.len() > 0 {
        let before = picked.drop_last();
        let last = picked.last();
        assert(picked[picked.len() - 1] == last);
        assert forall|k: int| 0 <= k < before.len() implies 0 <= #[trigger] before[k] < spans.len()
            && reps[before[k]].len() == spans[before[k]].end - spans[before[k]].start by {
            assert(before[k] == picked[k]);
        }
        assert forall|k: int, m: int| 0 <= k < m < before.len() implies before[k] < before[m] by {
            assert(before[k] == picked[k]);
            assert(before[m] == picked[m]);
        }
        lemma_spliced_head_keeps(text, spans, reps, before);
        let head = spliced_head(text, spans, reps, before);
        let from = picked_end(spans, before);
        if before.len() > 0 {
            assert(before.last() == picked[picked.len() - 2]);
            assert(spans[before.last()].end <= spans[last].start);
        }
        let gap = text.subrange(from, spans[last].start as int);
        let whole = spliced_head(text, spans, reps, picked);
        assert(whole == head + gap + reps[last]);
        assert forall|j: int|
            0 <= j < picked_end(spans, picked) && !in_picked(spans, picked, j) implies #[trigger] whole[j]
            == text[j] by {
            if j < from {
                if in_picked(spans, before, j) {
                    let k = choose|k: int|
                        0 <= k < before.len() && spans[#[trigger] before[k]].start <= j
                            < spans[before[k]].end;
                    assert(picked[k] == before[k]);
                    assert(in_picked(spans, picked, j));
                }
                assert(whole[j] == head[j]);
            } else if j < spans[last].start {
                assert(whole[j] == gap[j - from]);
            } else {
                assert(spans[picked[picked.len() - 1]].start <= j < spans[picked[picked.len()
                    - 1]].end);
                assert(in_picked(spans, picked, j));
            }
        }
    }
}

/// The spans that are replaced are picked in order.
pub proof fn lemma_applied_in_order(text: Seq<u8>, spans: Seq<MatchSpan>, f: Filters)
    ensures
        picked_in_order(spans, applied(text, spans, f)),
        forall|k: int|
            0 <= k < applied(text, spans, f).len() ==> f.accepts(
                text,
                spans[#[trigger] applied(text, spans, f)[k]],
            ),
{
    lemma_accepted_upto_ascending(text, spans, f, spans.len() as int);
}

/// Containment: where every match that is replaced gives way to a text of
/// its own length, the output is as long as the input, and each byte that
/// differs lies in a match that is replaced. That match passes the filters:
/// it intersects a range of the allowlist, where one is set, and it starts
/// on a line of the line range, where one is set.
pub proof fn law_changes_lie_in_filtered_matches(plan: Plan, text: Seq<u8>, j: int)
    requires
        spans_ordered(plan.spans(text), text.len() as int),
        same_lengths(
            plan.spans(text),
            plan.replacements(text),
            applied(text, plan.spans(text), plan.filters),
        ),
        0 <= j < text.len(),
    ensures
        plan.replaced(text).len() == text.len(),
        plan.replaced(text)[j] != text[j] ==> exists|k: int|
            0 <= k < applied(text, plan.spans(text), plan.filters).len() && {
                let span = plan.spans(text)[#[trigger] applied(
                    text,
                    plan.spans(text),
                    plan.filters,
                )[k]];
                &&& span.start <= j < span.end
                &&& plan.filters.allowed matches Some(allowed) ==> hits_allowlist(
                    allowed,
                    span.start as int,
                    span.end as int,
                )
                &&& plan.filters.range matches Some(range) ==> range.contains(
                    line_of(text, span.start as int),
                )
            },
{
    let spans = plan.spans(text);
    let reps = plan.replacements(text);
    let picked = applied(text, spans, plan.filters);
    lemma_applied_in_order(text, spans, plan.filters);
    lemma_spliced_head_keeps(text, spans, reps, picked);
    let head = spliced_head(text, spans, reps, picked);
    let end = picked_end(spans, picked);
    let out = plan.replaced(text);
    assert(out == head + text.subrange(end, text.len() as int));
    if out[j] != text[j] {
        if j >= end {
            assert(out[j] == text.subrange(end, text.len() as int)[j - end]);
        } else {
            assert(out[j] == head[j]);
            assert(in_picked(spans, picked, j));
            let k = choose|k: int|
                0 <= k < picked.len() && spans[#[trigger] picked[k]].start <= j
                    < spans[picked[k]].end;
            assert(plan.filters.accepts(text, spans[picked[k]]));
        }
    }
}

/// No match sticks out of a range of the allowlist that it intersects.
pub open spec fn matches_stay_in_ranges(
    spans: Seq<MatchSpan>,
    allowed: Seq<crate::model::ReplacementRange>,
) -> bool {
    forall|i: int, k: int|
        0 <= i < spans.len() && 0 <= k < allowed.len() && (#[trigger] allowed[k]).intersects(
            (#[trigger] spans[i]).start as int,
            spans[i].end as int,
        ) ==> allowed[k].start <= spans[i].start && spans[i].end <= allowed[k].end
}

/// Allowlist containment: with an allowlist, where every match that is
/// replaced gives way to a text of its own length and no match sticks out
/// of a range that it intersects, each byte that differs between input and
/// output lies in a range of the allowlist.
pub proof fn law_changes_lie_in_allowlist(plan: Plan, text: Seq<u8>, j: int)
    requires
        plan.filters.allowed is Some,
        spans_ordered(plan.spans(text), text.len() as int),
        same_lengths(
            plan.spans(text),
            plan.replacements(text),
            applied(text, plan.spans(text), plan.filters),
        ),
        matches_stay_in_ranges(plan.spans(text), plan.filters.allowed->0),
        0 <= j < text.len(),
        plan.replaced(text)[j] != text[j],
    ensures
        exists|k: int|
            0 <= k < plan.filters.allowed->0.len() && (#[trigger] plan.filters.allowed->0[k]).start
                <= j < plan.filters.allowed->0[k].end,
{
    let spans = plan.spans(text);
    let allowed = plan.filters.allowed->0;
    let picked = applied(text, spans, plan.filters);
    law_changes_lie_in_filtered_matches(plan, text, j);
    lemma_applied_in_order(text, spans, plan.filters);
    let m = choose|m: int|
        0 <= m < picked.len() && {
            let span = spans[#[trigger] picked[m]];
            &&& span.start <= j < span.end
            &&& plan.filters.allowed matches Some(allowed) ==> hits_allowlist(
                allowed,
                span.start as int,
                span.end as int,
            )
            &&& plan.filters.range matches Some(range) ==> range.contains(
                line_of(text, span.start as int),
            )
        };
    let span = spans[picked[m]];
    let k = choose|k: int|
        0 <= k < allowed.len() && (#[trigger] allowed[k]).intersects(
            span.start as int,
            span.end as int,
        );
    assert(allowed[k].start <= j < allowed[k].end);
}

/// A byte of a match lies on the line on which the match starts, unless a
/// line feed stands in the match before it.
pub proof fn lemma_match_bytes_share_the_line(text: Seq<u8>, span: MatchSpan, j: int)
    requires
        span.start <= j < span.end,
        forall|k: int| span.start <= k < j ==> text[k] != 10u8,
    ensures
        line_of(text, j) == line_of(text, span.start as int),
{
    lemma_same_line(text, span.start as int, j);
}

/// No match holds a line feed.
pub open spec fn matches_stay_in_lines(text: Seq<u8>, spans: Seq<MatchSpan>) -> bool {
    forall|i: int, k: int|
        0 <= i < spans.len() && (#[trigger] spans[i]).start <= k < spans[i].end ==> #[trigger] text[k]
            != 10u8
}

/// Range containment: with a line range, where every match that is
/// replaced gives way to a text of its own length and no match holds a
/// line feed, each byte that differs between input and output lies on a
/// line of the range.
pub proof fn law_changes_lie_in_line_range(plan: Plan, text: Seq<u8>, j: int)
    requires
        plan.filters.range is Some,
        spans_ordered(plan.spans(text), text.len() as int),
        same_lengths(
            plan.spans(text),
            plan.replacements(text),
            applied(text, plan.spans(text), plan.filters),
        ),
        matches_stay_in_lines(text, plan.spans(text)),
        0 <= j < text.len(),
        plan.replaced(text)[j] != text[j],
    ensures
        plan.filters.range->0.contains(line_of(text, j)),
{
    let spans = plan.spans(text);
    let picked = applied(text, spans, plan.filters);
    law_changes_lie_in_filtered_matches(plan, text, j);
    lemma_applied_in_order(text, spans, plan.filters);
    let m = choose|m: int|
        0 <= m < picked.len() && {
            let span = spans[#[trigger] picked[m]];
            &&& span.start <= j < span.end
            &&& plan.filters.allowed matches Some(allowed) ==> hits_allowlist(
                allowed,
                span.start as int,
                span.end as int,
            )
            &&& plan.filters.range matches Some(range) ==> range.contains(
                line_of(text, span.start as int),
            )
        };
    let span = spans[picked[m]];
    assert forall|k: int| span.start <= k < j implies text[k] != 10u8 by {
        assert(spans[picked[m]].start <= k < spans[picked[m]].end);
    }
    lemma_match_bytes_share_the_line(text, span, j);
}

/// A literal replacer leaves a text in which its pattern does not occur as
/// it is, and counts nothing.
pub proof fn lemma_literal_pass_without_occurrence(plan: Plan, text: Seq<u8>)
    requires
        plan.matcher is Literal,
        text.len() <= usize::MAX,
        forall|q: int| !occurs_at(text, plan.matcher->Literal_0, q),
    ensures
        plan.replaced(text) == text,
        plan.replaced_count(text) == 0,
        plan.match_count(text) == 0,
{
    let needle = plan.matcher->Literal_0;
    lemma_literal_starts(text, needle, 0);
    assert(literal_starts(text, needle).len() == 0);
    let spans = plan.spans(text);
    assert(spans.len() == 0);
    assert(accepted(text, spans, plan.filters) =~= Seq::<int>::empty());
    assert(applied(text, spans, plan.filters) =~= Seq::<int>::empty());
    assert(plan.replaced(text) =~= text);
}

/// Idempotence: where the first pass of a literal replacer leaves no
/// occurrence of its pattern, a second pass yields the same output and
/// counts no replacement.
pub proof fn law_second_literal_pass(plan: Plan, text: Seq<u8>)
    requires
        plan.matcher is Literal,
        plan.replaced(text).len() <= usize::MAX,
        forall|q: int| !occurs_at(plan.replaced(text), plan.matcher->Literal_0, q),
    ensures
        plan.replaced(plan.replaced(text)) == plan.replaced(text),
        plan.replaced_count(plan.replaced(text)) == 0,
{
    lemma_literal_pass_without_occurrence(plan, plan.replaced(text));
}

} // verus!
