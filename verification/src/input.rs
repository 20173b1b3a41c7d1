//! Where the inputs of a run come from, and the inputs themselves.

use vstd::prelude::*;
use vstd::slice::slice_to_vec;
use vstd::utf8::{encode_utf8, valid_utf8};
use crate::error::Error;
use crate::model::ReplacementRange;
use crate::scan::{ByteClass, CARRIAGE_RETURN, runs, split_runs};
use crate::text::string_from_utf8;

verus! {

/// Where the inputs of a run come from.
#[derive(Debug, Clone, PartialEq, Eq)]
pub enum InputMode {
    /// The paths given as arguments; where there are none and standard
    /// input is a pipe, paths from standard input, one per line.
    Auto(Vec<String>),
    /// Paths from standard input, one per line.
    StdinPathsNewline,
    /// Paths from standard input, each ended by a NUL byte.
    StdinPathsNul,
    /// The text of standard input is the one input.
    StdinText,
    /// The JSON stream of a search tool on standard input.
    RipgrepJson,
}

/// Where the caller reads the inputs of a run from.
#[derive(Debug, Clone, PartialEq, Eq)]
pub enum InputSource {
    /// The given paths.
    Paths(Vec<String>),
    /// Standard input, one path per line.
    StdinLines,
    /// Standard input, each path ended by a NUL byte.
    StdinRecords,
    /// Standard input, as one text.
    StdinText,
    /// Standard input, as the JSON stream of a search tool.
    StdinJson,
    /// Nothing: there are no inputs.
    Nothing,
}

impl InputMode {
    /// Where the inputs are read from. Without paths as arguments they come
    /// from standard input where that is a pipe, one per line.
    pub fn source(&self, stdin_is_pipe: bool) -> (s: InputSource)
        ensures
            match *self {
                InputMode::Auto(paths) => if paths@.len() > 0 {
                    s matches InputSource::Paths(p) && p@ == paths@
                } else if stdin_is_pipe {
                    s == InputSource::StdinLines
                } else {
                    s == InputSource::Nothing
                },
                InputMode::StdinPathsNewline => s == InputSource::StdinLines,
                InputMode::StdinPathsNul => s == InputSource::StdinRecords,
                InputMode::StdinText => s == InputSource::StdinText,
                InputMode::RipgrepJson => s == InputSource::StdinJson,
            },
    {
        match self {
            InputMode::Auto(paths) => {
                if paths.len() > 0 {
                    InputSource::Paths(clone_texts(paths))
                } else if stdin_is_pipe {
                    InputSource::StdinLines
                } else {
                    InputSource::Nothing
                }
            },
            InputMode::StdinPathsNewline => InputSource::StdinLines,
            InputMode::StdinPathsNul => InputSource::StdinRecords,
            InputMode::StdinText => InputSource::StdinText,
            InputMode::RipgrepJson => InputSource::StdinJson,
        }
    }
}

/// One input of a run.
#[derive(Debug, Clone, PartialEq, Eq)]
pub enum InputItem {
    /// A file.
    Path(String),
    /// A text that is no file.
    StdinText(String),
    /// A file with the byte ranges that a search tool matched in it: only
    /// matches that intersect one of them are replaced.
    RipgrepMatch { path: String, matches: Vec<ReplacementRange> },
}

/// A copy of a list of texts.
pub fn clone_texts(texts: &Vec<String>) -> (r: Vec<String>)
    ensures
        r@ == texts@,
{
    let mut r: Vec<String> = Vec::new();
    let mut i: usize = 0;
    while i < texts.len()
        invariant
            i <= texts@.len(),
            r@ == texts@.take(i as int),
        decreases texts.len() - i,
    {
        r.push(texts[i].clone());
        i = i + 1;
        assert(r@ =~= texts@.take(i as int));
    }
    assert(r@ =~= texts@);
    r
}

/// The input mode that the flags select. Standard input as text comes
/// first, then the search tool's stream, then NUL-separated paths, then
/// paths by line; without any of them the paths given as arguments.
pub fn resolve_input_mode(
    stdin_paths: bool,
    files0: bool,
    stdin_text: bool,
    rg_json: bool,
    files_arg: bool,
    files: &Vec<String>,
) -> (mode: InputMode)
    ensures
        stdin_text ==> mode == InputMode::StdinText,
        !stdin_text && rg_json ==> mode == InputMode::RipgrepJson,
        !stdin_text && !rg_json && files0 ==> mode == InputMode::StdinPathsNul,
        !stdin_text && !rg_json && !files0 && stdin_paths ==> mode == InputMode::StdinPathsNewline,
        !stdin_text && !rg_json && !files0 && !stdin_paths ==> (mode matches InputMode::Auto(paths)
            && paths@ == files@),
{
    if stdin_text {
        InputMode::StdinText
    } else if rg_json {
        InputMode::RipgrepJson
    } else if files0 {
        InputMode::StdinPathsNul
    } else if stdin_paths {
        InputMode::StdinPathsNewline
    } else {
        InputMode::Auto(clone_texts(files))
    }
}

/// One path input for each path, in order.
pub fn path_items(paths: Vec<String>) -> (items: Vec<InputItem>)
    ensures
        items@.len() == paths@.len(),
        forall|i: int| 0 <= i < paths@.len() ==> #[trigger] items@[i] == InputItem::Path(paths@[i]),
{
    let mut items: Vec<InputItem> = Vec::new();
    let mut i: usize = 0;
    while i < paths.len()
        invariant
            i <= paths@.len(),
            items@.len() == i,
            forall|k: int| 0 <= k < i ==> #[trigger] items@[k] == InputItem::Path(paths@[k]),
        decreases paths.len() - i,
    {
        items.push(InputItem::Path(paths[i].clone()));
        i = i + 1;
    }
    items
}

/// The bytes of a line without the carriage return at its end, if it has one.
pub open spec fn line_bytes(input: Seq<u8>, run: (usize, usize)) -> Seq<u8> {
    if run.0 < run.1 && input[run.1 - 1] == CARRIAGE_RETURN {
        input.subrange(run.0 as int, run.1 - 1)
    } else {
        input.subrange(run.0 as int, run.1 as int)
    }
}

/// The lines given by `runs` that are not empty, in order.
pub open spec fn kept_lines(input: Seq<u8>, runs: Seq<(usize, usize)>) -> Seq<Seq<u8>>
    decreases runs.len(),
{
    if runs.len() == 0 {
        Seq::empty()
    } else {
        let line = line_bytes(input, runs.last());
        if line.len() == 0 {
            kept_lines(input, runs.drop_last())
        } else {
            kept_lines(input, runs.drop_last()).push(line)
        }
    }
}

/// The paths of a list with one path per line: the lines of `input`, ended
/// by a line feed with or without a carriage return before it, without the
/// empty ones.
pub open spec fn path_lines(input: Seq<u8>) -> Seq<Seq<u8>> {
    kept_lines(input, runs(input, ByteClass::Line))
}

/// The paths of a list whose paths end in a NUL byte: the stretches of
/// `input` between NUL bytes, without the empty ones.
pub open spec fn path_records(input: Seq<u8>) -> Seq<Seq<u8>> {
    let found = runs(input, ByteClass::Record);
    Seq::new(found.len(), |i: int| input.subrange(found[i].0 as int, found[i].1 as int))
}

/// Whether `paths` are the texts whose UTF-8 encodings `pieces` are.
pub open spec fn are_texts_of(paths: Seq<String>, pieces: Seq<Seq<u8>>) -> bool {
    &&& paths.len() == pieces.len()
    &&& forall|i: int| 0 <= i < paths.len() ==> encode_utf8((#[trigger] paths[i])@) == pieces[i]
}

/// Whether `r` is what reading `pieces` as paths results in: the paths, or
/// an error where one of them is no UTF-8.
pub open spec fn reads_as_paths(r: Result<Vec<String>, Error>, pieces: Seq<Seq<u8>>) -> bool {
    if forall|i: int| 0 <= i < pieces.len() ==> valid_utf8(#[trigger] pieces[i]) {
        r matches Ok(paths) && are_texts_of(paths@, pieces)
    } else {
        r matches Err(Error::InvalidUtf8(m)) && m@ == "Invalid UTF-8 in path"@
    }
}

/// The paths of a list with one path per line.
pub fn paths_from_lines(input: &[u8]) -> (r: Result<Vec<String>, Error>)
    ensures
        reads_as_paths(r, path_lines(input@)),
{
    let found = split_runs(input, ByteClass::Line);
    let ghost all = path_lines(input@);
    let mut paths: Vec<String> = Vec::new();
    let mut i: usize = 0;
    while i < found.len()
        invariant
            i <= found@.len(),
            found@ == runs(input@, ByteClass::Line),
            all == kept_lines(input@, found@),
            forall|k: int|
                0 <= k < found@.len() ==> (#[trigger] found@[k]).0 < found@[k].1 <= input@.len(),
            are_texts_of(paths@, kept_lines(input@, found@.take(i as int))),
            forall|k: int|
                0 <= k < kept_lines(input@, found@.take(i as int)).len() ==> valid_utf8(
                    #[trigger] kept_lines(input@, found@.take(i as int))[k],
                ),
        decreases found.len() - i,
    {
        let (start, end) = found[i];
        let stop: usize = if input[end - 1] == CARRIAGE_RETURN {
            end - 1
        } else {
            end
        };
        let ghost sofar = kept_lines(input@, found@.take(i as int));
        proof {
            assert(found@.take(i + 1).drop_last() == found@.take(i as int));
            assert(found@.take(i + 1).last() == found@[i as int]);
            assert(line_bytes(input@, found@[i as int]) == input@.subrange(
                start as int,
                stop as int,
            ));
        }
        if stop > start {
            let piece = slice_to_vec(&input[start..stop]);
            match string_from_utf8(piece) {
                Some(path) => {
                    paths.push(path);
                },
                None => {
                    proof {
                        let next = kept_lines(input@, found@.take(i + 1));
                        assert(next == sofar.push(input@.subrange(start as int, stop as int)));
                        assert(next.last() == input@.subrange(start as int, stop as int));
                        lemma_kept_lines_stay(input@, found@, i + 1);
                        let at = next.len() - 1;
                        assert(all[at] == next[at]);
                        assert(!valid_utf8(all[at]));
                    }
                    return Err(Error::InvalidUtf8(String::from_str("Invalid UTF-8 in path")));
                },
            }
        }
        i = i + 1;
    }
    proof {
        assert(found@.take(found@.len() as int) == found@);
    }
    Ok(paths)
}

/// The lines kept among the first `n` runs open the lines kept among all.
pub proof fn lemma_kept_lines_stay(input: Seq<u8>, runs: Seq<(usize, usize)>, n: int)
    requires
        0 <= n <= runs.len(),
    ensures
        kept_lines(input, runs.take(n)).len() <= kept_lines(input, runs).len(),
        forall|k: int|
            0 <= k < kept_lines(input, runs.take(n)).len() ==> kept_lines(input, runs)[k]
                == kept_lines(input, runs.take(n))[k],
    decreases runs.len() - n,
{
    if n < runs.len() {
        lemma_kept_lines_stay(input, runs, n + 1);
        assert(runs.take(n + 1).drop_last() == runs.take(n));
    } else {
        assert(runs.take(n) == runs);
    }
}

/// The paths of a list whose paths end in a NUL byte.
pub fn paths_from_nul_records(input: &[u8]) -> (r: Result<Vec<String>, Error>)
    ensures
        reads_as_paths(r, path_records(input@)),
{
    let found = split_runs(input, ByteClass::Record);
    let ghost all = path_records(input@);
    let mut paths: Vec<String> = Vec::new();
    let mut i: usize = 0;
    while i < found.len()
        invariant
            i <= found@.len(),
            found@ == runs(input@, ByteClass::Record),
            all == path_records(input@),
            forall|k: int|
                0 <= k < found@.len() ==> (#[trigger] found@[k]).0 < found@[k].1 <= input@.len(),
            are_texts_of(paths@, all.take(i as int)),
            forall|k: int| 0 <= k < i ==> valid_utf8(#[trigger] all[k]),
        decreases found.len() - i,
    {
        let (start, end) = found[i];
        let piece = slice_to_vec(&input[start..end]);
        assert(piece@ == all[i as int]);
        match string_from_utf8(piece) {
            Some(path) => {
                paths.push(path);
            },
            None => {
                return Err(Error::InvalidUtf8(String::from_str("Invalid UTF-8 in path")));
            },
        }
        i = i + 1;
    }
    proof {
        assert(all.take(all.len() as int) == all);
    }
    Ok(paths)
}

} // verus!
