//! Line numbers of byte offsets.
//!
//! The line of an offset is one more than the number of line feeds before
//! it. The executable side builds a table of line starts once and finds the
//! line of an offset by binary search.

use vstd::prelude::*;
use crate::model::LineRange;

verus! {

/// The number of line feeds among the first `pos` bytes of `text`.
pub open spec fn newlines_before(text: Seq<u8>, pos: int) -> nat
    decreases pos,
{
    if pos <= 0 {
        0
    } else {
        newlines_before(text, pos - 1) + if text[pos - 1] == 10u8 {
            1nat
        } else {
            0nat
        }
    }
}

/// The 1-based number of the line that holds the byte offset `pos`.
pub open spec fn line_of(text: Seq<u8>, pos: int) -> int {
    1 + newlines_before(text, pos) as int
}

/// `table` lists the offsets at which the lines of `text` start, in order.
pub open spec fn is_line_table(table: Seq<usize>, text: Seq<u8>) -> bool {
    &&& table.len() == 1 + newlines_before(text, text.len() as int)
    &&& forall|k: int|
        0 <= k < table.len() ==> {
            &&& #[trigger] table[k] <= text.len()
            &&& newlines_before(text, table[k] as int) == k
            &&& (k == 0 ==> table[k] == 0)
            &&& (k > 0 ==> table[k] > 0 && text[table[k] - 1] == 10u8)
        }
}

/// The entries of `table` strictly increase, starting at offset 0.
pub open spec fn table_sorted(table: Seq<usize>) -> bool {
    &&& table.len() > 0
    &&& table[0] == 0
    &&& forall|i: int, j: int| 0 <= i < j < table.len() ==> table[i] < table[j]
}

/// The largest index below `n` whose entry is at most `offset`.
pub open spec fn line_index(table: Seq<usize>, offset: int, n: int) -> int
    decreases n,
{
    if n <= 1 {
        0
    } else if table[n - 1] <= offset {
        n - 1
    } else {
        line_index(table, offset, n - 1)
    }
}

pub proof fn lemma_newlines_monotone(text: Seq<u8>, a: int, b: int)
    requires
        a <= b,
    ensures
        newlines_before(text, a) <= newlines_before(text, b),
    decreases b - a,
{
    if a < b {
        lemma_newlines_monotone(text, a, b - 1);
    }
}

/// No line feed in `[a, b)` means that `a` and `b` lie on the same line.
pub proof fn lemma_same_line(text: Seq<u8>, a: int, b: int)
    requires
        0 <= a <= b,
        forall|k: int| a <= k < b ==> text[k] != 10u8,
    ensures
        line_of(text, a) == line_of(text, b),
    decreases b - a,
{
    if a < b {
        lemma_same_line(text, a, b - 1);
    }
}

proof fn lemma_table_sorted(table: Seq<usize>, text: Seq<u8>)
    requires
        is_line_table(table, text),
    ensures
        table_sorted(table),
{
    assert forall|i: int, j: int| 0 <= i < j < table.len() implies table[i] < table[j] by {
        if table[i] >= table[j] {
            lemma_newlines_monotone(text, table[j] as int, table[i] as int);
        }
    }
}

/// In the line table of `text`, the index found for an offset is the number
/// of line feeds before that offset.
pub proof fn lemma_line_index_is_line(table: Seq<usize>, text: Seq<u8>, offset: int)
    requires
        is_line_table(table, text),
        0 <= offset <= text.len(),
    ensures
        line_index(table, offset, table.len() as int) + 1 == line_of(text, offset),
{
    lemma_table_sorted(table, text);
    let k = line_index(table, offset, table.len() as int);
    lemma_line_index_bounds(table, offset, table.len() as int);
    lemma_newlines_monotone(text, table[k] as int, offset);
    if k + 1 < table.len() {
        let next = table[k + 1] as int;
        lemma_newlines_monotone(text, offset, next - 1);
    } else {
        lemma_newlines_monotone(text, offset, text.len() as int);
    }
}

/// The index found is that of the last entry at most `offset`.
pub proof fn lemma_line_index_bounds(table: Seq<usize>, offset: int, n: int)
    requires
        table_sorted(table),
        1 <= n <= table.len(),
        0 <= offset,
    ensures
        0 <= line_index(table, offset, n) < n,
        table[line_index(table, offset, n)] <= offset,
        forall|j: int| line_index(table, offset, n) < j < n ==> table[j] > offset,
    decreases n,
{
    if n > 1 && table[n - 1] > offset {
        lemma_line_index_bounds(table, offset, n - 1);
    }
}

/// The offsets at which the lines of `text` start: 0, and the offset after
/// each line feed.
pub fn build_line_offsets(text: &[u8]) -> (offsets: Vec<usize>)
    ensures
        is_line_table(offsets@, text@),
        table_sorted(offsets@),
{
    let mut offsets: Vec<usize> = Vec::new();
    offsets.push(0);
    let mut i: usize = 0;
    while i < text.len()
        invariant
            i <= text.len(),
            offsets@.len() == 1 + newlines_before(text@, i as int),
            forall|k: int|
                0 <= k < offsets@.len() ==> {
                    &&& #[trigger] offsets@[k] <= i
                    &&& newlines_before(text@, offsets@[k] as int) == k
                    &&& (k == 0 ==> offsets@[k] == 0)
                    &&& (k > 0 ==> offsets@[k] > 0 && text@[offsets@[k] - 1] == 10u8)
                },
        decreases text.len() - i,
    {
        if text[i] == 10u8 {
            offsets.push(i + 1);
        }
        i = i + 1;
    }
    proof {
        lemma_table_sorted(offsets@, text@);
    }
    offsets
}

/// Whether `byte_offset` lies on a line of `range`, by binary search in a
/// table of line starts.
pub fn is_in_range(byte_offset: usize, range: &LineRange, line_offsets: &[usize]) -> (r: bool)
    requires
        table_sorted(line_offsets@),
    ensures
        r == range.contains(
            line_index(line_offsets@, byte_offset as int, line_offsets@.len() as int) + 1,
        ),
{
    let n: usize = line_offsets.len();
    // lo is the index of an entry at most byte_offset; all entries from hi on are larger.
    let mut lo: usize = 0;
    let mut hi: usize = n;
    while hi - lo > 1
        invariant
            table_sorted(line_offsets@),
            n == line_offsets@.len(),
            lo < hi <= n,
            line_offsets@[lo as int] <= byte_offset,
            forall|j: int| hi <= j < n ==> line_offsets@[j] > byte_offset,
        decreases hi - lo,
    {
        let mid: usize = lo + (hi - lo) / 2;
        if line_offsets[mid] <= byte_offset {
            lo = mid;
        } else {
            hi = mid;
        }
    }
    proof {
        lemma_line_index_bounds(line_offsets@, byte_offset as int, n as int);
        let k = line_index(line_offsets@, byte_offset as int, n as int);
        assert(k == lo) by {
            if k < lo {
                assert(line_offsets@[lo as int] > byte_offset);
            }
            if k > lo {
                assert(k >= hi);
            }
        }
    }
    let line_number: usize = lo + 1;
    if line_number < range.start {
        return false;
    }
    match range.end {
        Some(end) => line_number <= end,
        None => true,
    }
}

} // verus!
