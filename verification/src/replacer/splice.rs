//! From the matches of a pattern to the replaced text.
//!
//! The matches of a pattern in a text are given as spans, in ascending order
//! and without overlap. A span is accepted when it starts on a line of the
//! line range and intersects the allowlist, as far as these are set. The
//! first `limit` accepted spans are applied (all of them for a limit of 0):
//! the text between applied spans is kept, each applied span gives way to
//! its replacement.

use vstd::prelude::*;
use crate::model::{LineRange, ReplacementRange};
use crate::replacer::allowlist::{
    check_allowed_range_optimized,
    cursor_passed,
    hits_allowlist,
    ranges_sorted,
};
use crate::replacer::lines::{
    build_line_offsets,
    is_in_range,
    is_line_table,
    lemma_line_index_is_line,
    line_of,
    table_sorted,
};

verus! {

/// The half-open byte interval `[start, end)` of one match.
#[derive(Debug, Clone, Copy, PartialEq, Eq)]
pub struct MatchSpan {
    pub start: usize,
    pub end: usize,
}

/// The filters and the limit of one replace operation.
pub struct Filters {
    /// Maximum number of replacements; 0 is unbounded.
    pub limit: usize,
    pub range: Option<LineRange>,
    pub allowed: Option<Seq<ReplacementRange>>,
}

/// The filters of an operation, with the allowlist taken by its view.
pub open spec fn filters_of(
    limit: usize,
    range: Option<LineRange>,
    allowed: Option<Vec<ReplacementRange>>,
) -> Filters {
    Filters {
        limit,
        range,
        allowed: match allowed {
            Some(a) => Some(a@),
            None => None,
        },
    }
}

/// The expansions, if any, as a sequence.
pub open spec fn expansions_view(expansions: Option<&Vec<Vec<u8>>>) -> Option<Seq<Vec<u8>>> {
    match expansions {
        Some(e) => Some(e@),
        None => None,
    }
}

/// The spans lie in a text of `len` bytes, ascend and do not overlap.
pub open spec fn spans_ordered(spans: Seq<MatchSpan>, len: int) -> bool {
    &&& forall|i: int| 0 <= i < spans.len() ==> (#[trigger] spans[i]).start <= spans[i].end <= len
    &&& forall|i: int, j: int|
        0 <= i < j < spans.len() ==> (#[trigger] spans[i]).end <= (#[trigger] spans[j]).start
}

impl Filters {
    /// Whether a match at `span` passes the line range and the allowlist.
    pub open spec fn accepts(self, text: Seq<u8>, span: MatchSpan) -> bool {
        &&& self.range matches Some(range) ==> range.contains(line_of(text, span.start as int))
        &&& self.allowed matches Some(allowed) ==> hits_allowlist(
            allowed,
            span.start as int,
            span.end as int,
        )
    }
}

/// The indices of the accepted spans among the first `n`, in order.
pub open spec fn accepted_upto(text: Seq<u8>, spans: Seq<MatchSpan>, f: Filters, n: int) -> Seq<
    int,
>
    decreases n,
{
    if n <= 0 {
        Seq::empty()
    } else if f.accepts(text, spans[n - 1]) {
        accepted_upto(text, spans, f, n - 1).push(n - 1)
    } else {
        accepted_upto(text, spans, f, n - 1)
    }
}

/// The indices of all accepted spans, in order.
pub open spec fn accepted(text: Seq<u8>, spans: Seq<MatchSpan>, f: Filters) -> Seq<int> {
    accepted_upto(text, spans, f, spans.len() as int)
}

/// The indices of the spans that are replaced: the accepted ones, cut off
/// at the limit.
pub open spec fn applied(text: Seq<u8>, spans: Seq<MatchSpan>, f: Filters) -> Seq<int> {
    let all = accepted(text, spans, f);
    if f.limit > 0 && all.len() > f.limit {
        all.take(f.limit as int)
    } else {
        all
    }
}

/// Where the last of the picked spans ends; 0 when none is picked.
pub open spec fn picked_end(spans: Seq<MatchSpan>, picked: Seq<int>) -> int {
    if picked.len() == 0 {
        0
    } else {
        spans[picked.last()].end as int
    }
}

/// The output up to the end of the last picked span: the text before each
/// picked span, as far as it follows the one before, and the replacement of
/// that span.
pub open spec fn spliced_head(
    text: Seq<u8>,
    spans: Seq<MatchSpan>,
    reps: Seq<Seq<u8>>,
    picked: Seq<int>,
) -> Seq<u8>
    decreases picked.len(),
{
    if picked.len() == 0 {
        Seq::empty()
    } else {
        let before = picked.drop_last();
        spliced_head(text, spans, reps, before) + text.subrange(
            picked_end(spans, before),
            spans[picked.last()].start as int,
        ) + reps[picked.last()]
    }
}

/// The text with each picked span replaced by the replacement of its index.
pub open spec fn spliced(
    text: Seq<u8>,
    spans: Seq<MatchSpan>,
    reps: Seq<Seq<u8>>,
    picked: Seq<int>,
) -> Seq<u8> {
    spliced_head(text, spans, reps, picked) + text.subrange(
        picked_end(spans, picked),
        text.len() as int,
    )
}

/// The replacement of each span: its own expansion where expansions are
/// given, else the one fixed replacement.
pub open spec fn replacements_of(
    n: nat,
    replacement: Seq<u8>,
    expansions: Option<Seq<Vec<u8>>>,
) -> Seq<Seq<u8>> {
    Seq::new(
        n,
        |i: int|
            match expansions {
                Some(e) => e[i]@,
                None => replacement,
            },
    )
}

/// The accepted indices are indices of spans, in ascending order.
pub proof fn lemma_accepted_upto_ascending(
    text: Seq<u8>,
    spans: Seq<MatchSpan>,
    f: Filters,
    n: int,
)
    requires
        0 <= n <= spans.len(),
    ensures
        accepted_upto(text, spans, f, n).len() <= n,
        forall|k: int|
            0 <= k < accepted_upto(text, spans, f, n).len() ==> {
                &&& 0 <= #[trigger] accepted_upto(text, spans, f, n)[k] < n
                &&& f.accepts(text, spans[accepted_upto(text, spans, f, n)[k]])
            },
        forall|k: int, m: int|
            0 <= k < m < accepted_upto(text, spans, f, n).len() ==> accepted_upto(
                text,
                spans,
                f,
                n,
            )[k] < accepted_upto(text, spans, f, n)[m],
    decreases n,
{
    if n > 0 {
        lemma_accepted_upto_ascending(text, spans, f, n - 1);
    }
}

/// What is accepted among the first `n` spans opens what is accepted among
/// the first `m`, for `n <= m`.
pub proof fn lemma_accepted_prefix(
    text: Seq<u8>,
    spans: Seq<MatchSpan>,
    f: Filters,
    n: int,
    m: int,
)
    requires
        0 <= n <= m <= spans.len(),
    ensures
        accepted_upto(text, spans, f, n).len() <= accepted_upto(text, spans, f, m).len(),
        accepted_upto(text, spans, f, m).take(accepted_upto(text, spans, f, n).len() as int)
            == accepted_upto(text, spans, f, n),
    decreases m - n,
{
    let a = accepted_upto(text, spans, f, n);
    if n == m {
        assert(a.take(a.len() as int) =~= a);
    } else {
        lemma_accepted_prefix(text, spans, f, n, m - 1);
        let b = accepted_upto(text, spans, f, m - 1);
        let c = accepted_upto(text, spans, f, m);
        assert(c.take(a.len() as int) =~= b.take(a.len() as int));
    }
}

/// Replaces the applied spans of `spans` in `text` and counts them.
///
/// `spans` are the matches of a pattern in `text`. The replacement of span
/// `i` is `expansions[i]` where expansions are given, else `replacement`.
pub fn replace_spans(
    text: &[u8],
    spans: &Vec<MatchSpan>,
    replacement: &[u8],
    expansions: Option<&Vec<Vec<u8>>>,
    limit: usize,
    range: &Option<LineRange>,
    allowed: &Option<Vec<ReplacementRange>>,
) -> (r: (Vec<u8>, usize))
    requires
        spans_ordered(spans@, text@.len() as int),
        expansions matches Some(e) ==> e@.len() == spans@.len(),
        allowed matches Some(a) ==> ranges_sorted(a@),
    ensures
        ({
            let f = filters_of(limit, *range, *allowed);
            let reps = replacements_of(spans@.len(), replacement@, expansions_view(expansions));
            &&& r.1 == applied(text@, spans@, f).len()
            &&& r.0@ == spliced(text@, spans@, reps, applied(text@, spans@, f))
        }),
{
    let ghost f = filters_of(limit, *range, *allowed);
    let ghost reps = replacements_of(
        spans@.len(),
        replacement@,
        expansions_view(expansions),
    );
    let table: Vec<usize> = match range {
        Some(_) => build_line_offsets(text),
        None => Vec::new(),
    };
    let mut out: Vec<u8> = Vec::new();
    let mut last_end: usize = 0;
    let mut count: usize = 0;
    let mut cursor: usize = 0;
    let mut i: usize = 0;
    let ghost mut picked: Seq<int> = Seq::empty();
    while i < spans.len() && !(limit > 0 && count >= limit)
        invariant
            i <= spans@.len(),
            spans_ordered(spans@, text@.len() as int),
            expansions matches Some(e) ==> e@.len() == spans@.len(),
            allowed matches Some(a) ==> ranges_sorted(a@),
            f == filters_of(limit, *range, *allowed),
            reps == replacements_of(
                spans@.len(),
                replacement@,
                expansions_view(expansions),
            ),
            range is Some ==> is_line_table(table@, text@) && table_sorted(table@),
            picked == accepted_upto(text@, spans@, f, i as int),
            count == picked.len(),
            count <= i,
            limit > 0 ==> count <= limit,
            last_end == picked_end(spans@, picked),
            last_end <= text@.len(),
            forall|k: int| i <= k < spans@.len() ==> last_end <= (#[trigger] spans@[k]).start,
            out@ == spliced_head(text@, spans@, reps, picked),
            allowed matches Some(a) ==> 0 <= cursor <= a@.len() && forall|j: int, k: int|
                0 <= j < cursor && i <= k < spans@.len() ==> (#[trigger] a@[j]).end <= (
                #[trigger] spans@[k]).start,
        decreases spans.len() - i,
    {
        let span = spans[i];
        let mut accept = true;
        if let Some(line_range) = range {
            proof {
                lemma_line_index_is_line(table@, text@, span.start as int);
            }
            if !is_in_range(span.start, line_range, table.as_slice()) {
                accept = false;
            }
        }
        if accept {
            if let Some(a) = allowed {
                assert(cursor_passed(a@, cursor as int, span.start as int));
                if !check_allowed_range_optimized(span.start, span.end, a.as_slice(), &mut cursor) {
                    accept = false;
                }
            }
        }
        assert(accept == f.accepts(text@, span));
        if accept {
            let ghost before = picked;
            proof {
                picked = picked.push(i as int);
                assert(picked.drop_last() == before);
            }
            let gap = &text[last_end..span.start];
            out.extend_from_slice(gap);
            match expansions {
                Some(e) => {
                    out.extend_from_slice(e[i].as_slice());
                },
                None => {
                    out.extend_from_slice(replacement);
                },
            }
            last_end = span.end;
            count = count + 1;
        }
        i = i + 1;
    }
    proof {
        lemma_accepted_prefix(text@, spans@, f, i as int, spans@.len() as int);
        let all = accepted(text@, spans@, f);
        if i < spans@.len() {
            assert(all.take(limit as int) == picked);
        } else {
            assert(all == picked);
        }
        assert(picked == applied(text@, spans@, f));
    }
    let tail = &text[last_end..text.len()];
    out.extend_from_slice(tail);
    (out, count)
}

/// Counts the accepted spans of `spans` in `text`.
pub fn count_spans(
    text: &[u8],
    spans: &Vec<MatchSpan>,
    range: &Option<LineRange>,
    allowed: &Option<Vec<ReplacementRange>>,
) -> (count: usize)
    requires
        spans_ordered(spans@, text@.len() as int),
        allowed matches Some(a) ==> ranges_sorted(a@),
    ensures
        forall|limit: usize|
            count == accepted(
                text@,
                spans@,
                #[trigger] filters_of(limit, *range, *allowed),
            ).len(),
{
    if range.is_none() && allowed.is_none() {
        proof {
            assert forall|limit: usize|
                spans@.len() == accepted(
                    text@,
                    spans@,
                    #[trigger] filters_of(limit, *range, *allowed),
                ).len() by {
                lemma_accepted_unfiltered(
                    text@,
                    spans@,
                    Filters { limit, range: None, allowed: None },
                    spans@.len() as int,
                );
            }
        }
        return spans.len();
    }
    let ghost f = filters_of(0, *range, *allowed);
    let table: Vec<usize> = match range {
        Some(_) => build_line_offsets(text),
        None => Vec::new(),
    };
    let mut count: usize = 0;
    let mut cursor: usize = 0;
    let mut i: usize = 0;
    while i < spans.len()
        invariant
            i <= spans@.len(),
            spans_ordered(spans@, text@.len() as int),
            allowed matches Some(a) ==> ranges_sorted(a@),
            f == filters_of(0, *range, *allowed),
            range is Some ==> is_line_table(table@, text@) && table_sorted(table@),
            count == accepted_upto(text@, spans@, f, i as int).len(),
            count <= i,
            allowed matches Some(a) ==> 0 <= cursor <= a@.len() && forall|j: int, k: int|
                0 <= j < cursor && i <= k < spans@.len() ==> (#[trigger] a@[j]).end <= (
                #[trigger] spans@[k]).start,
        decreases spans.len() - i,
    {
        let span = spans[i];
        let mut accept = true;
        if let Some(line_range) = range {
            proof {
                lemma_line_index_is_line(table@, text@, span.start as int);
            }
            if !is_in_range(span.start, line_range, table.as_slice()) {
                accept = false;
            }
        }
        if accept {
            if let Some(a) = allowed {
                assert(cursor_passed(a@, cursor as int, span.start as int));
                if !check_allowed_range_optimized(span.start, span.end, a.as_slice(), &mut cursor) {
                    accept = false;
                }
            }
        }
        assert(accept == f.accepts(text@, span));
        if accept {
            count = count + 1;
        }
        i = i + 1;
    }
    proof {
        assert forall|limit: usize|
            count == accepted(
                text@,
                spans@,
                #[trigger] filters_of(limit, *range, *allowed),
            ).len() by {
            lemma_accepted_ignores_limit(
                text@,
                spans@,
                f,
                Filters { limit, range: f.range, allowed: f.allowed },
                spans@.len() as int,
            );
        }
    }
    count
}

/// Without filters every span is accepted.
pub proof fn lemma_accepted_unfiltered(text: Seq<u8>, spans: Seq<MatchSpan>, f: Filters, n: int)
    requires
        f.range is None,
        f.allowed is None,
        0 <= n <= spans.len(),
    ensures
        accepted_upto(text, spans, f, n) == Seq::new(n as nat, |i: int| i),
    decreases n,
{
    if n > 0 {
        lemma_accepted_unfiltered(text, spans, f, n - 1);
    }
    assert(accepted_upto(text, spans, f, n) =~= Seq::new(n as nat, |i: int| i));
}

/// Which spans are accepted does not depend on the limit.
pub proof fn lemma_accepted_ignores_limit(
    text: Seq<u8>,
    spans: Seq<MatchSpan>,
    f: Filters,
    g: Filters,
    n: int,
)
    requires
        f.range == g.range,
        f.allowed == g.allowed,
    ensures
        accepted_upto(text, spans, f, n) == accepted_upto(text, spans, g, n),
    decreases n,
{
    if n > 0 {
        lemma_accepted_ignores_limit(text, spans, f, g, n - 1);
    }
}

} // verus!
