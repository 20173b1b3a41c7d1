//! Scanning runs of bytes of one class.

use vstd::prelude::*;

verus! {

/// The byte `$`.
pub const DOLLAR: u8 = 36;

/// The byte `{`.
pub const OPEN_BRACE: u8 = 123;

/// The byte `}`.
pub const CLOSE_BRACE: u8 = 125;

/// The byte `/`.
pub const SLASH: u8 = 47;

/// The line feed.
pub const LINE_FEED: u8 = 10;

/// The carriage return.
pub const CARRIAGE_RETURN: u8 = 13;

/// A class of bytes that a scan runs over.
#[derive(Debug, Clone, Copy, PartialEq, Eq, Structural)]
pub enum ByteClass {
    /// ASCII letters, digits and the underscore.
    Name,
    /// ASCII digits.
    Digit,
    /// Every byte but the closing brace.
    Braced,
    /// Every byte but the slash that parts the components of a path.
    Segment,
    /// Every byte but the line feed.
    Line,
    /// Every byte but the NUL byte.
    Record,
}

/// Whether `b` may stand in the name of an unbraced reference.
pub open spec fn valid_capture_char(b: u8) -> bool {
    (48 <= b <= 57) || (97 <= b <= 122) || (65 <= b <= 90) || b == 95
}

impl ByteClass {
    /// Whether `b` belongs to the class.
    pub open spec fn has(self, b: u8) -> bool {
        match self {
            ByteClass::Name => valid_capture_char(b),
            ByteClass::Digit => 48 <= b <= 57,
            ByteClass::Braced => b != CLOSE_BRACE,
            ByteClass::Segment => b != SLASH,
            ByteClass::Line => b != LINE_FEED,
            ByteClass::Record => b != 0,
        }
    }

    /// Whether `b` belongs to the class.
    pub fn holds(self, b: u8) -> (r: bool)
        ensures
            r == self.has(b),
    {
        match self {
            ByteClass::Name => (48 <= b && b <= 57) || (97 <= b && b <= 122) || (65 <= b && b <= 90)
                || b == 95,
            ByteClass::Digit => 48 <= b && b <= 57,
            ByteClass::Braced => b != CLOSE_BRACE,
            ByteClass::Segment => b != SLASH,
            ByteClass::Line => b != LINE_FEED,
            ByteClass::Record => b != 0,
        }
    }
}

/// The first offset in `[from, bound)` whose byte is not of `class`, or
/// `bound` where there is none.
pub open spec fn run_end(s: Seq<u8>, from: int, bound: int, class: ByteClass) -> int
    decreases bound - from,
{
    if from >= bound {
        bound
    } else if !class.has(s[from]) {
        from
    } else {
        run_end(s, from + 1, bound, class)
    }
}

pub proof fn lemma_run_end(s: Seq<u8>, from: int, bound: int, class: ByteClass)
    requires
        from <= bound,
    ensures
        from <= run_end(s, from, bound, class) <= bound,
        forall|k: int| from <= k < run_end(s, from, bound, class) ==> class.has(s[k]),
        run_end(s, from, bound, class) < bound ==> !class.has(s[run_end(s, from, bound, class)]),
    decreases bound - from,
{
    if from < bound && class.has(s[from]) {
        lemma_run_end(s, from + 1, bound, class);
    }
}

/// The end of the run of bytes of `class` that starts at `from` and stays
/// below `bound`.
pub fn scan_run(bytes: &[u8], from: usize, bound: usize, class: ByteClass) -> (end: usize)
    requires
        from <= bound <= bytes@.len(),
    ensures
        end == run_end(bytes@, from as int, bound as int, class),
        from <= end <= bound,
{
    let mut end: usize = from;
    while end < bound && class.holds(bytes[end])
        invariant
            from <= end <= bound <= bytes@.len(),
            run_end(bytes@, from as int, bound as int, class) == run_end(
                bytes@,
                end as int,
                bound as int,
                class,
            ),
        decreases bound - end,
    {
        end = end + 1;
    }
    end
}

/// A run in the tail of a text is the run in the text itself, moved.
pub proof fn lemma_run_end_shift(s: Seq<u8>, cut: int, from: int, class: ByteClass)
    requires
        0 <= cut <= s.len(),
        0 <= from <= s.len() - cut,
    ensures
        run_end(s.subrange(cut, s.len() as int), from, s.len() - cut, class) + cut == run_end(
            s,
            cut + from,
            s.len() as int,
            class,
        ),
    decreases s.len() - cut - from,
{
    let tail = s.subrange(cut, s.len() as int);
    if from < s.len() - cut {
        assert(tail[from] == s[cut + from]);
        if class.has(s[cut + from]) {
            lemma_run_end_shift(s, cut, from + 1, class);
        }
    }
}

/// The maximal runs of bytes of `class` in `s` from offset `from` on, each
/// as its start and its end, in order.
pub open spec fn runs_from(s: Seq<u8>, from: int, class: ByteClass) -> Seq<(usize, usize)>
    decreases s.len() - from,
{
    if from < 0 || from >= s.len() {
        Seq::empty()
    } else if !class.has(s[from]) {
        runs_from(s, from + 1, class)
    } else {
        let end = run_end(s, from, s.len() as int, class);
        if from < end <= s.len() && end <= usize::MAX {
            seq![(from as usize, end as usize)] + runs_from(s, end, class)
        } else {
            Seq::empty()
        }
    }
}

/// The maximal runs of bytes of `class` in `s`.
pub open spec fn runs(s: Seq<u8>, class: ByteClass) -> Seq<(usize, usize)> {
    runs_from(s, 0, class)
}

/// The maximal runs of bytes of `class` in `bytes`: the stretches between
/// the bytes that part them, without the empty ones.
pub fn split_runs(bytes: &[u8], class: ByteClass) -> (found: Vec<(usize, usize)>)
    ensures
        found@ == runs(bytes@, class),
        forall|i: int|
            0 <= i < found@.len() ==> (#[trigger] found@[i]).0 < found@[i].1 <= bytes@.len(),
{
    let len: usize = bytes.len();
    let mut found: Vec<(usize, usize)> = Vec::new();
    let mut pos: usize = 0;
    while pos < len
        invariant
            pos <= len,
            len == bytes@.len(),
            runs(bytes@, class) == found@ + runs_from(bytes@, pos as int, class),
            forall|i: int|
                0 <= i < found@.len() ==> (#[trigger] found@[i]).0 < found@[i].1 <= bytes@.len(),
        decreases len - pos,
    {
        if !class.holds(bytes[pos]) {
            pos = pos + 1;
        } else {
            let end = scan_run(bytes, pos, len, class);
            proof {
                lemma_run_end(bytes@, pos as int, len as int, class);
            }
            let ghost before = found@;
            found.push((pos, end));
            proof {
                assert(found@ + runs_from(bytes@, end as int, class) =~= before + (seq![(pos, end)]
                    + runs_from(bytes@, end as int, class)));
            }
            pos = end;
        }
    }
    proof {
        assert(found@ + runs_from(bytes@, pos as int, class) =~= found@);
    }
    found
}

} // verus!
