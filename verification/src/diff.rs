//! Line diffs between the text before and after a run.
//!
//! The lines are compared by the `similar` crate. Its answer is held to what
//! a diff must satisfy: the lines that are kept or deleted make up the old
//! text, those that are kept or inserted the new one. An answer that does
//! not is replaced by the diff that deletes the old text and inserts the new.

use vstd::prelude::*;

verus! {

/// What a line of a diff says of its text.
#[derive(Debug, Clone, Copy, PartialEq, Eq, Structural)]
pub enum ChangeTag {
    /// The line stands in both texts.
    Equal,
    /// The line stands in the old text only.
    Delete,
    /// The line stands in the new text only.
    Insert,
}

/// One line of a diff, with its line ending if it has one.
#[derive(Debug, Clone, PartialEq, Eq)]
pub struct LineChange {
    pub tag: ChangeTag,
    pub text: String,
    /// The line does not end in a line ending.
    pub missing_newline: bool,
}

/// A line of a diff as plain values: tag, text, and whether the line ending
/// is missing.
pub struct Line {
    pub tag: ChangeTag,
    pub text: Seq<char>,
    pub missing_newline: bool,
}

impl View for LineChange {
    type V = Line;

    open spec fn view(&self) -> Line {
        Line { tag: self.tag, text: self.text@, missing_newline: self.missing_newline }
    }
}

/// The lines of a diff as plain values.
pub open spec fn lines_of(changes: Seq<LineChange>) -> Seq<Line> {
    Seq::new(changes.len(), |i: int| changes[i]@)
}

/// The texts of the lines that do not carry the tag `without`, in a row.
pub open spec fn side(lines: Seq<Line>, without: ChangeTag) -> Seq<char>
    decreases lines.len(),
{
    if lines.len() == 0 {
        Seq::empty()
    } else if lines.last().tag == without {
        side(lines.drop_last(), without)
    } else {
        side(lines.drop_last(), without) + lines.last().text
    }
}

/// The text that a diff starts from: its kept and deleted lines.
pub open spec fn before(lines: Seq<Line>) -> Seq<char> {
    side(lines, ChangeTag::Insert)
}

/// The text that a diff leads to: its kept and inserted lines.
pub open spec fn after(lines: Seq<Line>) -> Seq<char> {
    side(lines, ChangeTag::Delete)
}

/// The sign that a rendered diff line starts with.
pub open spec fn sign(tag: ChangeTag) -> Seq<char> {
    match tag {
        ChangeTag::Delete => "-"@,
        ChangeTag::Insert => "+"@,
        ChangeTag::Equal => " "@,
    }
}

/// The rendered diff: each line with its sign in front, and a line feed
/// behind a line that lacks its line ending.
pub open spec fn rendered(lines: Seq<Line>) -> Seq<char>
    decreases lines.len(),
{
    if lines.len() == 0 {
        Seq::empty()
    } else {
        let last = lines.last();
        rendered(lines.drop_last()) + sign(last.tag) + last.text + if last.missing_newline {
            "\n"@
        } else {
            Seq::empty()
        }
    }
}

/// The number that stands for a tag in `line_diff`.
pub open spec fn tag_of(number: u8) -> ChangeTag {
    if number == 1 {
        ChangeTag::Delete
    } else if number == 2 {
        ChangeTag::Insert
    } else {
        ChangeTag::Equal
    }
}

/// The line diff that `similar::TextDiff::from_lines` computes, as
/// `iter_all_changes` lists it: for each change its tag (0 for a kept line,
/// 1 for a deleted, 2 for an inserted one), its text, and whether it lacks
/// its line ending.
pub uninterp spec fn line_diff(old: Seq<char>, new: Seq<char>) -> Seq<(u8, Seq<char>, bool)>;

/// The line diff of the `similar` crate from `old` to `new`.
pub open spec fn similar_lines(old: Seq<char>, new: Seq<char>) -> Seq<Line> {
    let found = line_diff(old, new);
    Seq::new(
        found.len(),
        |i: int| Line { tag: tag_of(found[i].0), text: found[i].1, missing_newline: found[i].2 },
    )
}

/// Whether `text` lacks a line ending at its end.
pub open spec fn lacks_line_ending(text: Seq<char>) -> bool {
    text.len() == 0 || (text.last() != '\n' && text.last() != '\r')
}

/// The diff that deletes all of `old` and inserts all of `new`.
pub open spec fn whole_replacement(old: Seq<char>, new: Seq<char>) -> Seq<Line> {
    seq![
        Line { tag: ChangeTag::Delete, text: old, missing_newline: lacks_line_ending(old) },
        Line { tag: ChangeTag::Insert, text: new, missing_newline: lacks_line_ending(new) },
    ]
}

/// The line diff from `old` to `new`: that of the `similar` crate where it
/// leads from `old` to `new`, else the whole replacement.
pub open spec fn diff_lines(old: Seq<char>, new: Seq<char>) -> Seq<Line> {
    let found = similar_lines(old, new);
    if before(found) == old && after(found) == new {
        found
    } else {
        whole_replacement(old, new)
    }
}

/// The changes that `similar::TextDiff::from_lines(old, new)` yields through
/// `iter_all_changes`, each with its tag, its text and whether
/// `missing_newline` holds of it. No more is claimed than that they depend
/// on the two texts alone.
#[verifier::external_body]
pub(crate) fn similar_line_changes(old: &str, new: &str) -> (changes: Vec<LineChange>)
    ensures
        changes@.len() == line_diff(old@, new@).len(),
        forall|i: int|
            0 <= i < changes@.len() ==> (#[trigger] changes@[i]).tag == tag_of(
                line_diff(old@, new@)[i].0,
            ) && changes@[i].text@ == line_diff(old@, new@)[i].1 && changes@[i].missing_newline
                == line_diff(old@, new@)[i].2,
{
    similar::TextDiff::from_lines(old, new)
        .iter_all_changes()
        .map(|c| LineChange {
            tag: match c.tag() {
                similar::ChangeTag::Equal => ChangeTag::Equal,
                similar::ChangeTag::Delete => ChangeTag::Delete,
                similar::ChangeTag::Insert => ChangeTag::Insert,
            },
            text: c.value().to_string(),
            missing_newline: c.missing_newline(),
        })
        .collect()
}

/// The texts of the changes without the tag `without`, in a row.
pub fn collect_side(changes: &Vec<LineChange>, without: ChangeTag) -> (text: String)
    ensures
        text@ == side(lines_of(changes@), without),
{
    let mut text = String::new();
    let mut i: usize = 0;
    while i < changes.len()
        invariant
            i <= changes@.len(),
            text@ == side(lines_of(changes@).take(i as int), without),
        decreases changes.len() - i,
    {
        proof {
            let lines = lines_of(changes@);
            assert(lines.take(i + 1).drop_last() == lines.take(i as int));
            assert(lines.take(i + 1).last() == changes@[i as int]@);
        }
        if changes[i].tag != without {
            text.append(changes[i].text.as_str());
        }
        i = i + 1;
    }
    proof {
        let lines = lines_of(changes@);
        assert(lines.take(lines.len() as int) == lines);
    }
    text
}

/// Whether `text` lacks a line ending at its end.
pub fn ends_without_newline(text: &str) -> (r: bool)
    ensures
        r == lacks_line_ending(text@),
{
    let n: usize = text.unicode_len();
    if n == 0 {
        return true;
    }
    let last = text.get_char(n - 1);
    last != '\n' && last != '\r'
}

/// What a diff must satisfy, and the whole replacement does.
pub proof fn lemma_whole_replacement(old: Seq<char>, new: Seq<char>)
    ensures
        before(whole_replacement(old, new)) == old,
        after(whole_replacement(old, new)) == new,
{
    let c = whole_replacement(old, new);
    reveal_with_fuel(side, 3);
    assert(c.drop_last().drop_last() =~= Seq::empty());
    assert(c.drop_last().last() == c[0]);
    assert(c.last() == c[1]);
    assert(side(c.drop_last(), ChangeTag::Insert) =~= old);
    assert(side(c, ChangeTag::Insert) =~= old);
    assert(side(c.drop_last(), ChangeTag::Delete) =~= Seq::empty());
    assert(side(c, ChangeTag::Delete) =~= new);
}

/// Diff fidelity: the line diff from `old` to `new` leads from the one to
/// the other. What it keeps and deletes is `old`; what it keeps and inserts
/// is `new`.
pub proof fn law_diff_leads_to_new_text(old: Seq<char>, new: Seq<char>)
    ensures
        before(diff_lines(old, new)) == old,
        after(diff_lines(old, new)) == new,
{
    lemma_whole_replacement(old, new);
}

/// A line diff from `old` to `new`: its kept and deleted lines make up
/// `old`, its kept and inserted lines `new`.
pub fn diff_changes(old: &str, new: &str) -> (changes: Vec<LineChange>)
    ensures
        lines_of(changes@) == diff_lines(old@, new@),
        before(lines_of(changes@)) == old@,
        after(lines_of(changes@)) == new@,
{
    let found = similar_line_changes(old, new);
    proof {
        assert(lines_of(found@) =~= similar_lines(old@, new@));
        lemma_whole_replacement(old@, new@);
    }
    let old_side = collect_side(&found, ChangeTag::Insert);
    let new_side = collect_side(&found, ChangeTag::Delete);
    let old_text = String::from_str(old);
    let new_text = String::from_str(new);
    if old_side == old_text && new_side == new_text {
        return found;
    }
    let mut changes: Vec<LineChange> = Vec::new();
    changes.push(
        LineChange {
            tag: ChangeTag::Delete,
            text: old_text,
            missing_newline: ends_without_newline(old),
        },
    );
    changes.push(
        LineChange {
            tag: ChangeTag::Insert,
            text: new_text,
            missing_newline: ends_without_newline(new),
        },
    );
    proof {
        assert(lines_of(changes@) =~= whole_replacement(old@, new@));
    }
    changes
}

/// The rendered text of a diff.
pub fn render_diff(changes: &Vec<LineChange>) -> (text: String)
    ensures
        text@ == rendered(lines_of(changes@)),
{
    let mut text = String::new();
    let mut i: usize = 0;
    while i < changes.len()
        invariant
            i <= changes@.len(),
            text@ == rendered(lines_of(changes@).take(i as int)),
        decreases changes.len() - i,
    {
        let ghost lines = lines_of(changes@);
        proof {
            assert(lines.take(i + 1).drop_last() == lines.take(i as int));
            assert(lines.take(i + 1).last() == changes@[i as int]@);
        }
        let ghost before_text = text@;
        let change = &changes[i];
        match change.tag {
            ChangeTag::Delete => text.append("-"),
            ChangeTag::Insert => text.append("+"),
            ChangeTag::Equal => text.append(" "),
        }
        text.append(change.text.as_str());
        if change.missing_newline {
            text.append("\n");
        }
        i = i + 1;
        proof {
            let last = changes@[i - 1]@;
            assert(text@ =~= before_text + sign(last.tag) + last.text + if last.missing_newline {
                "\n"@
            } else {
                Seq::empty()
            });
        }
    }
    proof {
        let lines = lines_of(changes@);
        assert(lines.take(lines.len() as int) == lines);
    }
    text
}

/// The rendered diff from `old` to `new`; none where the texts are equal.
pub open spec fn diff_text(old: Seq<char>, new: Seq<char>) -> Option<Seq<char>> {
    if old == new {
        None
    } else {
        Some(rendered(diff_lines(old, new)))
    }
}

/// The rendered line diff from `old` to `new`; none where the texts are equal.
pub fn generate_diff(old: &str, new: &str) -> (diff: Option<String>)
    ensures
        match diff_text(old@, new@) {
            Some(text) => diff matches Some(d) && d@ == text,
            None => diff is None,
        },
{
    let old_text = String::from_str(old);
    let new_text = String::from_str(new);
    if old_text == new_text {
        return None;
    }
    let changes = diff_changes(old, new);
    let text = render_diff(&changes);
    Some(text)
}

} // verus!
