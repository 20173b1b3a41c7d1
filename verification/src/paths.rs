//! Paths as texts: their components, and the form in which they are
//! matched against glob patterns.
//!
//! A path is split at slashes. Empty components and `.` components say
//! nothing and are dropped. An absolute path that lies below the current
//! directory is taken relative to it.

use vstd::prelude::*;
use vstd::utf8::{decode_utf8, encode_utf8, pop_first_scalar, valid_utf8};
use crate::scan::{ByteClass, SLASH, lemma_run_end, run_end, scan_run};
use crate::text::{bytes_equal, string_from_utf8};

verus! {

/// The byte `.`.
pub const DOT: u8 = 46;

/// The components of `path` from offset `from` on: its maximal runs of
/// bytes other than the slash.
pub open spec fn components_from(path: Seq<u8>, from: int) -> Seq<Seq<u8>>
    decreases path.len() - from,
{
    if from < 0 || from >= path.len() {
        Seq::empty()
    } else if path[from] == SLASH {
        components_from(path, from + 1)
    } else {
        let end = run_end(path, from, path.len() as int, ByteClass::Segment);
        if from < end <= path.len() {
            seq![path.subrange(from, end)] + components_from(path, end)
        } else {
            Seq::empty()
        }
    }
}

/// Whether the component is the one that stands for the directory itself.
pub open spec fn is_dot(component: Seq<u8>) -> bool {
    component == seq![DOT]
}

/// The components without the `.` components.
pub open spec fn without_dots(components: Seq<Seq<u8>>) -> Seq<Seq<u8>>
    decreases components.len(),
{
    if components.len() == 0 {
        Seq::empty()
    } else if is_dot(components.last()) {
        without_dots(components.drop_last())
    } else {
        without_dots(components.drop_last()).push(components.last())
    }
}

/// The components of `path` that say where it leads.
pub open spec fn components(path: Seq<u8>) -> Seq<Seq<u8>> {
    without_dots(components_from(path, 0))
}

/// Whether `path` starts at the root.
pub open spec fn is_absolute(path: Seq<u8>) -> bool {
    path.len() > 0 && path[0] == SLASH
}

/// The components in a row, with a slash between each two.
pub open spec fn joined(components: Seq<Seq<u8>>) -> Seq<u8>
    decreases components.len(),
{
    if components.len() == 0 {
        Seq::empty()
    } else if components.len() == 1 {
        components[0]
    } else {
        joined(components.drop_last()) + seq![SLASH] + components.last()
    }
}

/// Whether `prefix` opens `whole`.
pub open spec fn starts_with(whole: Seq<Seq<u8>>, prefix: Seq<Seq<u8>>) -> bool {
    prefix.len() <= whole.len() && whole.take(prefix.len() as int) == prefix
}

/// The form in which `path` is matched against globs: relative to `cwd`
/// where it is absolute and lies below it, without empty and `.`
/// components, and `.` where nothing is left.
pub open spec fn normalized(path: Seq<u8>, cwd: Seq<u8>) -> Seq<u8> {
    let parts = components(path);
    let base = components(cwd);
    if is_absolute(path) && !(is_absolute(cwd) && starts_with(parts, base)) {
        seq![SLASH] + joined(parts)
    } else {
        let rest = if is_absolute(path) {
            parts.skip(base.len() as int)
        } else {
            parts
        };
        if rest.len() == 0 {
            seq![DOT]
        } else {
            joined(rest)
        }
    }
}

/// A component of a path: the bytes of the path in `[start, end)`.
#[derive(Debug, Clone, Copy, PartialEq, Eq)]
pub struct Segment {
    pub start: usize,
    pub end: usize,
}

/// The bytes of the segments in `path`.
pub open spec fn segment_bytes(path: Seq<u8>, segments: Seq<Segment>) -> Seq<Seq<u8>> {
    Seq::new(segments.len(), |i: int| path.subrange(segments[i].start as int, segments[i].end as int))
}

/// Each segment is a run of the path between slashes or the ends.
pub open spec fn segments_fit(path: Seq<u8>, segments: Seq<Segment>) -> bool {
    forall|i: int|
        0 <= i < segments.len() ==> {
            let s = #[trigger] segments[i];
            &&& s.start < s.end <= path.len()
            &&& (s.start == 0 || path[s.start - 1] == SLASH)
            &&& (s.end == path.len() || path[s.end as int] == SLASH)
        }
}

/// The segments follow each other in the path.
pub open spec fn segments_ascend(segments: Seq<Segment>) -> bool {
    forall|i: int, j: int|
        0 <= i < j < segments.len() ==> (#[trigger] segments[i]).end < (
        #[trigger] segments[j]).start
}

/// The components of `path` that say where it leads, as segments of it.
pub fn split_components(path: &[u8]) -> (segments: Vec<Segment>)
    ensures
        segment_bytes(path@, segments@) == components(path@),
        segments_fit(path@, segments@),
        segments_ascend(segments@),
{
    let len: usize = path.len();
    let mut segments: Vec<Segment> = Vec::new();
    let mut pos: usize = 0;
    let ghost mut seen: Seq<Seq<u8>> = Seq::empty();
    while pos < len
        invariant
            pos <= len,
            len == path@.len(),
            pos == 0 || pos == len || path@[pos - 1] == SLASH || path@[pos as int] == SLASH,
            components_from(path@, 0) == seen + components_from(path@, pos as int),
            segment_bytes(path@, segments@) == without_dots(seen),
            segments_fit(path@, segments@),
            segments_ascend(segments@),
            forall|i: int|
                0 <= i < segments@.len() ==> (#[trigger] segments@[i]).end <= pos && (
                segments@[i].end == pos && pos < len ==> path@[pos as int] == SLASH),
        decreases len - pos,
    {
        if path[pos] == SLASH {
            pos = pos + 1;
        } else {
            let end = scan_run(path, pos, len, ByteClass::Segment);
            proof {
                lemma_run_end(path@, pos as int, len as int, ByteClass::Segment);
            }
            let ghost part = path@.subrange(pos as int, end as int);
            let ghost old_seen = seen;
            proof {
                seen = seen.push(part);
                assert(seen + components_from(path@, end as int) =~= old_seen + (seq![part]
                    + components_from(path@, end as int)));
                assert(seen.drop_last() == old_seen);
            }
            let dot = end - pos == 1 && path[pos] == DOT;
            proof {
                if dot {
                    assert(part =~= seq![DOT]);
                } else if part.len() == 1 {
                    assert(part[0] == path@[pos as int]);
                }
            }
            if !dot {
                let ghost before = segments@;
                segments.push(Segment { start: pos, end });
                proof {
                    assert(segment_bytes(path@, segments@) =~= segment_bytes(path@, before).push(
                        part,
                    ));
                }
            }
            pos = end;
        }
    }
    proof {
        assert(seen + components_from(path@, pos as int) =~= seen);
    }
    segments
}

/// Whether the first `count` segments of `path` are the segments of `base`.
pub fn opens_with(path: &[u8], parts: &Vec<Segment>, base: &[u8], base_parts: &Vec<Segment>) -> (r:
    bool)
    requires
        segments_fit(path@, parts@),
        segments_fit(base@, base_parts@),
    ensures
        r == starts_with(segment_bytes(path@, parts@), segment_bytes(base@, base_parts@)),
{
    if base_parts.len() > parts.len() {
        return false;
    }
    let ghost whole = segment_bytes(path@, parts@);
    let ghost prefix = segment_bytes(base@, base_parts@);
    let mut i: usize = 0;
    while i < base_parts.len()
        invariant
            i <= base_parts@.len() <= parts@.len(),
            segments_fit(path@, parts@),
            segments_fit(base@, base_parts@),
            whole == segment_bytes(path@, parts@),
            prefix == segment_bytes(base@, base_parts@),
            forall|k: int| 0 <= k < i ==> whole[k] == prefix[k],
        decreases base_parts.len() - i,
    {
        let a = parts[i];
        let b = base_parts[i];
        if !bytes_equal(&path[a.start..a.end], &base[b.start..b.end]) {
            assert(whole.take(prefix.len() as int)[i as int] != prefix[i as int]);
            return false;
        }
        i = i + 1;
    }
    assert(whole.take(prefix.len() as int) =~= prefix);
    true
}

/// The segments from index `from` on, in a row, with a slash between each two.
pub fn join_segments(path: &[u8], parts: &Vec<Segment>, from: usize, out: &mut Vec<u8>)
    requires
        segments_fit(path@, parts@),
        from <= parts@.len(),
    ensures
        final(out)@ == old(out)@ + joined(segment_bytes(path@, parts@).skip(from as int)),
{
    let ghost rest = segment_bytes(path@, parts@).skip(from as int);
    let ghost start = out@;
    let mut i: usize = from;
    while i < parts.len()
        invariant
            from <= i <= parts@.len(),
            segments_fit(path@, parts@),
            rest == segment_bytes(path@, parts@).skip(from as int),
            out@ == start + joined(rest.take(i - from)),
        decreases parts.len() - i,
    {
        let part = parts[i];
        proof {
            assert(rest.take(i - from + 1).drop_last() == rest.take(i - from));
            assert(rest.take(i - from + 1).last() == path@.subrange(
                part.start as int,
                part.end as int,
            ));
            if i == from {
                assert(joined(rest.take(0)) =~= Seq::empty());
            }
        }
        if i > from {
            out.push(SLASH);
        }
        out.extend_from_slice(&path[part.start..part.end]);
        i = i + 1;
        proof {
            assert(out@ =~= start + joined(rest.take(i - from)));
        }
    }
    proof {
        assert(rest.take(rest.len() as int) == rest);
    }
}

/// A single ASCII byte is UTF-8.
pub proof fn lemma_ascii_byte_is_utf8(b: u8)
    requires
        b < 128,
    ensures
        valid_utf8(seq![b]),
{
    reveal_with_fuel(valid_utf8, 2);
    let s = seq![b];
    assert(s[0] == b);
    assert(pop_first_scalar(s) =~= Seq::<u8>::empty());
    assert(vstd::utf8::codepoint_width_1(b) <= 0x7f) by {
        assert(b & 0x7f <= 0x7f) by (bit_vector);
    }
}

/// What follows an ASCII byte in a UTF-8 text is UTF-8.
pub proof fn lemma_after_ascii(bytes: Seq<u8>, i: int)
    requires
        valid_utf8(bytes),
        0 <= i < bytes.len(),
        bytes[i] < 128,
    ensures
        valid_utf8(bytes.subrange(i + 1, bytes.len() as int)),
{
    vstd::utf8::is_char_boundary_iff_not_is_continuation_byte(bytes, i);
    vstd::utf8::valid_utf8_split(bytes, i);
    let tail = bytes.subrange(i, bytes.len() as int);
    assert(tail[0] == bytes[i]);
    assert(pop_first_scalar(tail) =~= bytes.subrange(i + 1, bytes.len() as int));
}

/// A stretch of a UTF-8 text between ASCII bytes or the ends is UTF-8.
pub proof fn lemma_piece_is_utf8(bytes: Seq<u8>, a: int, b: int)
    requires
        valid_utf8(bytes),
        0 <= a <= b <= bytes.len(),
        a == 0 || bytes[a - 1] < 128,
        b == bytes.len() || bytes[b] < 128,
    ensures
        valid_utf8(bytes.subrange(a, b)),
{
    let tail = bytes.subrange(a, bytes.len() as int);
    if a == 0 {
        assert(tail =~= bytes);
    } else {
        lemma_after_ascii(bytes, a - 1);
    }
    if b == bytes.len() {
        assert(tail =~= bytes.subrange(a, b));
    } else {
        assert(tail[b - a] == bytes[b]);
        vstd::utf8::is_char_boundary_iff_not_is_continuation_byte(tail, b - a);
        vstd::utf8::valid_utf8_split(tail, b - a);
        assert(tail.subrange(0, b - a) =~= bytes.subrange(a, b));
    }
}

/// The segments of a UTF-8 path are UTF-8.
pub proof fn lemma_segments_are_utf8(path: Seq<u8>, segments: Seq<Segment>)
    requires
        valid_utf8(path),
        segments_fit(path, segments),
    ensures
        forall|i: int|
            0 <= i < segments.len() ==> valid_utf8(#[trigger] segment_bytes(path, segments)[i]),
{
    assert forall|i: int| 0 <= i < segments.len() implies valid_utf8(
        #[trigger] segment_bytes(path, segments)[i],
    ) by {
        let s = segments[i];
        lemma_piece_is_utf8(path, s.start as int, s.end as int);
    }
}

/// UTF-8 components in a row, with slashes between them, are UTF-8.
pub proof fn lemma_joined_is_utf8(components: Seq<Seq<u8>>)
    requires
        forall|i: int| 0 <= i < components.len() ==> valid_utf8(#[trigger] components[i]),
    ensures
        valid_utf8(joined(components)),
    decreases components.len(),
{
    if components.len() >= 2 {
        lemma_joined_is_utf8(components.drop_last());
        lemma_ascii_byte_is_utf8(SLASH);
        vstd::utf8::valid_utf8_concat(joined(components.drop_last()), seq![SLASH]);
        vstd::utf8::valid_utf8_concat(
            joined(components.drop_last()) + seq![SLASH],
            components.last(),
        );
    }
}

/// The form in which `path` is matched against globs, as bytes.
pub fn normalize_bytes(path: &[u8], cwd: &[u8]) -> (out: Vec<u8>)
    ensures
        out@ == normalized(path@, cwd@),
        valid_utf8(path@) ==> valid_utf8(out@),
{
    let parts = split_components(path);
    let absolute = path.len() > 0 && path[0] == SLASH;
    let mut out: Vec<u8> = Vec::new();
    let mut from: usize = 0;
    if absolute {
        let base = split_components(cwd);
        let below = cwd.len() > 0 && cwd[0] == SLASH && opens_with(path, &parts, cwd, &base);
        if below {
            from = base.len();
        } else {
            out.push(SLASH);
            join_segments(path, &parts, 0, &mut out);
            proof {
                assert(segment_bytes(path@, parts@).skip(0) =~= components(path@));
                if valid_utf8(path@) {
                    lemma_segments_are_utf8(path@, parts@);
                    lemma_joined_is_utf8(components(path@));
                    lemma_ascii_byte_is_utf8(SLASH);
                    vstd::utf8::valid_utf8_concat(seq![SLASH], joined(components(path@)));
                }
            }
            return out;
        }
    }
    if from >= parts.len() {
        out.push(DOT);
        proof {
            lemma_ascii_byte_is_utf8(DOT);
            assert(out@ =~= seq![DOT]);
            assert(components(path@).skip(from as int).len() == 0);
            if !absolute {
                assert(components(path@).len() == 0);
            }
        }
        return out;
    }
    join_segments(path, &parts, from, &mut out);
    proof {
        assert(segment_bytes(path@, parts@).skip(0) =~= components(path@));
        assert(out@ =~= joined(components(path@).skip(from as int)));
        if valid_utf8(path@) {
            lemma_segments_are_utf8(path@, parts@);
            lemma_joined_is_utf8(components(path@).skip(from as int));
        }
    }
    out
}

/// The form in which `path` is matched against globs: relative to `cwd`
/// where it is absolute and lies below it, without empty and `.`
/// components, and `.` where nothing is left.
pub fn normalize_path(path: &str, cwd: &str) -> (out: String)
    ensures
        encode_utf8(out@) == normalized(encode_utf8(path@), encode_utf8(cwd@)),
        out@ == decode_utf8(normalized(encode_utf8(path@), encode_utf8(cwd@))),
{
    proof {
        vstd::utf8::encode_utf8_valid_utf8(path@);
    }
    let bytes = normalize_bytes(path.as_bytes(), cwd.as_bytes());
    match string_from_utf8(bytes) {
        Some(out) => {
            proof {
                vstd::utf8::encode_utf8_decode_utf8(out@);
            }
            out
        },
        None => {
            assert(false);
            String::new()
        },
    }
}

} // verus!
