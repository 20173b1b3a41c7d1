//! The messages of a search tool's JSON stream, and what the engine takes
//! from them: for each path the byte ranges that the tool matched.
//!
//! The stream holds one message per line. Match and context messages carry
//! a path, as text or as base64 of its bytes, the offset of their line in
//! the file, and the matches in that line. Messages arrive in the order in
//! which the tool's threads wrote them; the sink sorts them by path.

use vstd::prelude::*;
use vstd::slice::slice_to_vec;
use vstd::utf8::encode_utf8;
use crate::error::Error;
use crate::input::InputItem;
use crate::model::ReplacementRange;
use crate::scan::{ByteClass, CARRIAGE_RETURN, LINE_FEED, runs, split_runs};
use crate::text::{concat, lossy_text, utf8_lossy};

verus! {

/// The kind of a message.
#[derive(Debug, Clone, Copy, PartialEq, Eq, Structural)]
pub enum RgKind {
    Begin,
    Match,
    Context,
    End,
    Summary,
}

/// A text of the stream: as it is, or as base64 where it is no UTF-8.
#[derive(Debug, Clone, PartialEq, Eq)]
pub enum RgTextOrBytes {
    Text { text: String },
    Bytes { bytes: String },
}

/// One match in a line.
#[derive(Debug, Clone, PartialEq, Eq)]
pub struct RgSubmatch {
    pub m: Option<RgTextOrBytes>,
    /// Where the match starts in its line.
    pub start: u64,
    /// Where the match ends in its line.
    pub end: u64,
}

/// What a match or context message says.
#[derive(Debug, Clone, PartialEq, Eq)]
pub struct RgData {
    pub path: Option<RgTextOrBytes>,
    pub lines: Option<RgTextOrBytes>,
    pub line_number: Option<u64>,
    /// Where the line starts in the file.
    pub absolute_offset: Option<u64>,
    pub submatches: Vec<RgSubmatch>,
}

/// One message of the stream.
#[derive(Debug, Clone, PartialEq, Eq)]
pub struct RgMessage {
    pub kind: RgKind,
    pub data: Option<RgData>,
}

/// What `base64::engine::general_purpose::STANDARD` decodes `input` to, or
/// the message of the decoder's error.
pub uninterp spec fn base64_standard(input: Seq<u8>) -> Result<Seq<u8>, Seq<char>>;

/// `base64::engine::general_purpose::STANDARD.decode`: the decoded bytes,
/// or the displayed text of the error. That both depend on the input alone
/// is all that is claimed.
#[verifier::external_body]
pub(crate) fn base64_decode(input: &[u8]) -> (r: Result<Vec<u8>, String>)
    ensures
        r is Ok == base64_standard(input@) is Ok,
        r matches Ok(bytes) ==> (base64_standard(input@) matches Ok(raw) && raw == bytes@),
        r matches Err(message) ==> (base64_standard(input@) matches Err(text) && text
            == message@),
{
    base64::Engine::decode(&base64::engine::general_purpose::STANDARD, input).map_err(
        |e| e.to_string(),
    )
}

impl RgTextOrBytes {
    /// The bytes that the text stands for, or the message of the error with
    /// which its base64 is refused.
    pub open spec fn bytes_of(self) -> Result<Seq<u8>, Seq<char>> {
        match self {
            RgTextOrBytes::Text { text } => Ok(encode_utf8(text@)),
            RgTextOrBytes::Bytes { bytes } => match base64_standard(encode_utf8(bytes@)) {
                Ok(raw) => Ok(raw),
                Err(message) => Err("base64 decode failed: "@ + message),
            },
        }
    }

    /// The bytes that the text stands for.
    pub fn as_bytes(&self) -> (r: Result<Vec<u8>, Error>)
        ensures
            match self.bytes_of() {
                Ok(raw) => r matches Ok(bytes) && bytes@ == raw,
                Err(message) => r matches Err(Error::Validation(m)) && m@ == message,
            },
    {
        match self {
            RgTextOrBytes::Text { text } => Ok(slice_to_vec(text.as_str().as_bytes())),
            RgTextOrBytes::Bytes { bytes } => match base64_decode(bytes.as_str().as_bytes()) {
                Ok(raw) => Ok(raw),
                Err(message) => Err(
                    Error::Validation(concat("base64 decode failed: ", message.as_str())),
                ),
            },
        }
    }

    /// The text, with a replacement character for each stretch of its bytes
    /// that is no UTF-8.
    pub fn as_string_lossy(&self) -> (r: Result<String, Error>)
        ensures
            match self {
                RgTextOrBytes::Text { text } => r matches Ok(s) && s@ == text@,
                RgTextOrBytes::Bytes { .. } => match self.bytes_of() {
                    Ok(raw) => r matches Ok(s) && s@ == utf8_lossy(raw),
                    Err(message) => r matches Err(Error::Validation(m)) && m@ == message,
                },
            },
    {
        match self {
            RgTextOrBytes::Text { text } => Ok(text.clone()),
            RgTextOrBytes::Bytes { .. } => match self.as_bytes() {
                Ok(raw) => Ok(lossy_text(raw.as_slice())),
                Err(e) => Err(e),
            },
        }
    }
}

/// Takes the messages of a stream, one by one.
pub trait RgSink: Sized {
    /// What holds of a sink that is fit to take messages.
    spec fn valid(self) -> bool;

    /// Whether the sink, on taking `msg`, may turn into `next` and answer
    /// with success or with an error.
    spec fn takes(self, msg: RgMessage, next: Self, ok: bool) -> bool;

    /// Takes one message.
    fn handle(&mut self, msg: RgMessage) -> (r: Result<(), Error>)
        requires
            old(self).valid(),
        ensures
            final(self).valid(),
            old(self).takes(msg, *final(self), r is Ok),
    ;
}

/// Whether a sink that is handed `messages` in order, up to the first that
/// it refuses, may turn from `first` into `last`, and whether it takes
/// them all.
pub open spec fn hands_over<S: RgSink>(first: S, messages: Seq<RgMessage>, last: S, ok: bool) -> bool
    decreases messages.len(),
{
    if messages.len() == 0 {
        ok && last == first
    } else {
        exists|next: S, taken: bool| #[trigger]
            first.takes(messages[0], next, taken) && if taken {
                hands_over(next, messages.drop_first(), last, ok)
            } else {
                !ok && last == next
            }
    }
}

/// Hands the messages to the sink, in order, up to the first that it
/// refuses, whose error is the result.
pub fn stream_rg_json_ndjson<S: RgSink>(messages: Vec<RgMessage>, sink: &mut S) -> (r: Result<
    (),
    Error,
>)
    requires
        old(sink).valid(),
    ensures
        final(sink).valid(),
        hands_over(*old(sink), messages@, *final(sink), r is Ok),
{
    let ghost all = messages@;
    let ghost first = *sink;
    let mut waiting = messages;
    let mut rest: Vec<RgMessage> = Vec::new();
    while waiting.len() > 0
        invariant
            *sink == first,
            waiting@ + rest@.reverse() == all,
        decreases waiting@.len(),
    {
        let ghost before = waiting@;
        let ghost held = rest@;
        match waiting.pop() {
            Some(message) => {
                rest.push(message);
                proof {
                    assert(held.push(message).reverse() =~= seq![message] + held.reverse());
                    assert(waiting@ + rest@.reverse() =~= before + held.reverse());
                }
            },
            None => {},
        }
    }
    proof {
        assert(rest@.reverse() =~= all);
    }
    while rest.len() > 0
        invariant
            first == *old(sink),
            all == messages@,
            sink.valid(),
            forall|last: S, ok: bool| #[trigger]
                hands_over(*sink, rest@.reverse(), last, ok) ==> hands_over(first, all, last, ok),
        decreases rest@.len(),
    {
        let ghost current = *sink;
        let ghost left = rest@.reverse();
        match rest.pop() {
            Some(message) => {
                proof {
                    assert(left[0] == message);
                    assert(left.drop_first() =~= rest@.reverse());
                }
                match sink.handle(message) {
                    Ok(_) => {
                        proof {
                            let next = *sink;
                            assert forall|last: S, ok: bool|
                                hands_over(next, rest@.reverse(), last, ok) implies hands_over(
                                first,
                                all,
                                last,
                                ok,
                            ) by {
                                assert(current.takes(left[0], next, true));
                                assert(hands_over(current, left, last, ok));
                            }
                        }
                    },
                    Err(e) => {
                        proof {
                            assert(current.takes(left[0], *sink, false));
                            assert(hands_over(current, left, *sink, false));
                            assert(hands_over(first, all, *sink, false));
                        }
                        return Err(e);
                    },
                }
            },
            None => {},
        }
    }
    proof {
        assert(rest@.reverse() =~= Seq::<RgMessage>::empty());
        assert(hands_over(*sink, rest@.reverse(), *sink, true));
    }
    Ok(())
}

/// How two byte strings stand to each other in the order of the sink.
#[derive(Debug, Clone, Copy, PartialEq, Eq, Structural)]
pub enum Order {
    Before,
    Same,
    After,
}

/// `a` comes before `b`: at the first byte in which they differ `a` holds
/// the smaller one, or `a` ends where `b` goes on.
pub open spec fn bytes_before(a: Seq<u8>, b: Seq<u8>) -> bool {
    exists|i: int| #[trigger] differs_at(a, b, i)
}

/// `a` and `b` agree in their first `i` bytes, and there `a` ends or holds
/// the smaller byte.
pub open spec fn differs_at(a: Seq<u8>, b: Seq<u8>, i: int) -> bool {
    &&& 0 <= i <= a.len()
    &&& i < b.len()
    &&& a.take(i) == b.take(i)
    &&& (i == a.len() || a[i] < b[i])
}

pub proof fn lemma_before_is_transitive(a: Seq<u8>, b: Seq<u8>, c: Seq<u8>)
    requires
        bytes_before(a, b),
        bytes_before(b, c),
    ensures
        bytes_before(a, c),
{
    let i = choose|i: int| #[trigger] differs_at(a, b, i);
    let j = choose|j: int| #[trigger] differs_at(b, c, j);
    let k = if i <= j {
        i
    } else {
        j
    };
    assert(a.take(k) =~= c.take(k)) by {
        assert forall|m: int| 0 <= m < k implies a[m] == c[m] by {
            assert(a.take(i)[m] == b.take(i)[m]);
            assert(b.take(j)[m] == c.take(j)[m]);
        }
    }
    if i < j {
        assert(b.take(j)[i] == c.take(j)[i]);
    } else if j < i {
        assert(a.take(i)[j] == b.take(i)[j]);
    }
    assert(differs_at(a, c, k));
}

pub proof fn lemma_before_is_strict(a: Seq<u8>, b: Seq<u8>)
    requires
        bytes_before(a, b),
    ensures
        a != b,
        !bytes_before(b, a),
{
    let i = choose|i: int| #[trigger] differs_at(a, b, i);
    if bytes_before(b, a) {
        let j = choose|j: int| #[trigger] differs_at(b, a, j);
        if i < j {
            assert(b.take(j)[i] == a.take(j)[i]);
        } else if j < i {
            assert(a.take(i)[j] == b.take(i)[j]);
        }
    }
}

/// How `a` stands to `b` in the order of the sink.
pub fn order_of(a: &[u8], b: &[u8]) -> (r: Order)
    ensures
        match r {
            Order::Before => bytes_before(a@, b@),
            Order::Same => a@ == b@,
            Order::After => bytes_before(b@, a@),
        },
{
    let mut i: usize = 0;
    while i < a.len() && i < b.len()
        invariant
            i <= a@.len(),
            i <= b@.len(),
            a@.take(i as int) == b@.take(i as int),
        decreases a.len() - i,
    {
        if a[i] < b[i] {
            assert(differs_at(a@, b@, i as int));
            return Order::Before;
        }
        if a[i] > b[i] {
            assert(differs_at(b@, a@, i as int));
            return Order::After;
        }
        assert(a@.take(i + 1) =~= a@.take(i as int).push(a@[i as int]));
        assert(b@.take(i + 1) =~= b@.take(i as int).push(b@[i as int]));
        i = i + 1;
    }
    if i < b.len() {
        assert(differs_at(a@, b@, i as int));
        Order::Before
    } else if i < a.len() {
        assert(differs_at(b@, a@, i as int));
        Order::After
    } else {
        assert(a@ =~= a@.take(i as int));
        assert(b@ =~= b@.take(i as int));
        Order::Same
    }
}

/// The messages of one path, in the order in which they came.
#[derive(Debug, Clone, PartialEq, Eq)]
pub struct PathEvents {
    /// The bytes of the path.
    pub path: Vec<u8>,
    pub events: Vec<RgData>,
}

/// Groups the match and context messages of a stream by their path, the
/// paths in byte order.
pub struct DeinterleavingSink {
    pub events: Vec<PathEvents>,
}

/// The paths ascend strictly.
pub open spec fn paths_ascend(entries: Seq<PathEvents>) -> bool {
    forall|i: int, j: int|
        0 <= i < j < entries.len() ==> bytes_before(
            (#[trigger] entries[i]).path@,
            (#[trigger] entries[j]).path@,
        )
}

/// The number of the first entries whose path comes before `key`.
pub open spec fn rank(entries: Seq<PathEvents>, key: Seq<u8>) -> int
    decreases entries.len(),
{
    if entries.len() == 0 {
        0
    } else if bytes_before(entries.last().path@, key) {
        entries.len() as int
    } else {
        rank(entries.drop_last(), key)
    }
}

/// Whether `next` is `entries` with one more message for the path `key`:
/// appended to the messages of that path where it is known, else as the
/// first message of a new entry at the place of the path in the order.
pub open spec fn holds_one_more(
    next: Seq<PathEvents>,
    entries: Seq<PathEvents>,
    key: Seq<u8>,
    data: RgData,
) -> bool {
    let at = rank(entries, key);
    if at < entries.len() && entries[at].path@ == key {
        &&& next.len() == entries.len()
        &&& next[at].path@ == key
        &&& next[at].events@ == entries[at].events@.push(data)
        &&& forall|i: int| 0 <= i < entries.len() && i != at ==> #[trigger] next[i] == entries[i]
    } else {
        &&& next.len() == entries.len() + 1
        &&& next[at].path@ == key
        &&& next[at].events@ == seq![data]
        &&& forall|i: int| 0 <= i < at ==> #[trigger] next[i] == entries[i]
        &&& forall|i: int| at <= i < entries.len() ==> #[trigger] next[i + 1] == entries[i]
    }
}

/// The path that a message is filed under, if it is filed: that of a match
/// or context message with data and a path.
pub open spec fn filed_under(msg: RgMessage) -> Option<RgTextOrBytes> {
    if (msg.kind == RgKind::Match || msg.kind == RgKind::Context) && msg.data is Some {
        msg.data->0.path
    } else {
        None
    }
}

pub proof fn lemma_rank(entries: Seq<PathEvents>, key: Seq<u8>)
    requires
        paths_ascend(entries),
    ensures
        0 <= rank(entries, key) <= entries.len(),
        forall|i: int| 0 <= i < rank(entries, key) ==> bytes_before(#[trigger] entries[i].path@, key),
        forall|i: int|
            rank(entries, key) <= i < entries.len() ==> !bytes_before(
                #[trigger] entries[i].path@,
                key,
            ),
    decreases entries.len(),
{
    if entries.len() > 0 {
        let last = entries.last();
        let head = entries.drop_last();
        assert forall|i: int, j: int| 0 <= i < j < head.len() implies bytes_before(
            (#[trigger] head[i]).path@,
            (#[trigger] head[j]).path@,
        ) by {
            assert(head[i] == entries[i]);
            assert(head[j] == entries[j]);
        }
        lemma_rank(head, key);
        if bytes_before(last.path@, key) {
            assert forall|i: int| 0 <= i < entries.len() implies bytes_before(
                #[trigger] entries[i].path@,
                key,
            ) by {
                if i < entries.len() - 1 {
                    assert(bytes_before(entries[i].path@, entries[entries.len() - 1].path@));
                    lemma_before_is_transitive(entries[i].path@, last.path@, key);
                }
            }
        } else {
            assert forall|i: int| 0 <= i < rank(entries, key) implies bytes_before(
                #[trigger] entries[i].path@,
                key,
            ) by {
                assert(head[i] == entries[i]);
            }
            assert forall|i: int| rank(entries, key) <= i < entries.len() implies !bytes_before(
                #[trigger] entries[i].path@,
                key,
            ) by {
                if i < entries.len() - 1 {
                    assert(head[i] == entries[i]);
                }
            }
        }
    }
}

impl DeinterleavingSink {
    /// A sink without messages.
    pub fn new() -> (sink: Self)
        ensures
            sink.events@.len() == 0,
            paths_ascend(sink.events@),
    {
        DeinterleavingSink { events: Vec::new() }
    }

    /// Files the message under its path, where it has one.
    ///
    /// Other messages are passed over. A path whose base64 is refused is an
    /// error, and the sink stays as it is.
    pub fn file(&mut self, msg: RgMessage) -> (r: Result<(), Error>)
        requires
            paths_ascend(old(self).events@),
        ensures
            paths_ascend(final(self).events@),
            match filed_under(msg) {
                None => r is Ok && final(self).events@ == old(self).events@,
                Some(path) => match path.bytes_of() {
                    Err(message) => (r matches Err(Error::Validation(m)) && m@ == message)
                        && final(self).events@ == old(self).events@,
                    Ok(key) => r is Ok && holds_one_more(
                        final(self).events@,
                        old(self).events@,
                        key,
                        msg.data->0,
                    ),
                },
            },
    {
        match msg.kind {
            RgKind::Match | RgKind::Context => {},
            _ => {
                return Ok(());
            },
        }
        let data = match msg.data {
            Some(data) => data,
            None => {
                return Ok(());
            },
        };
        let key = match &data.path {
            Some(path) => match path.as_bytes() {
                Ok(key) => key,
                Err(e) => {
                    return Err(e);
                },
            },
            None => {
                return Ok(());
            },
        };
        let ghost entries = self.events@;
        proof {
            lemma_rank(entries, key@);
        }
        let mut at: usize = 0;
        let mut end: usize = self.events.len();
        let mut found = false;
        while at < end
            invariant_except_break
                !found,
            invariant
                at <= end <= self.events@.len(),
                self.events@ == entries,
                paths_ascend(entries),
                forall|i: int| 0 <= i < at ==> bytes_before(#[trigger] entries[i].path@, key@),
                forall|i: int| end <= i < entries.len() ==> bytes_before(key@, #[trigger] entries[i].path@),
            ensures
                at <= self.events@.len(),
                self.events@ == entries,
                forall|i: int| 0 <= i < at ==> bytes_before(#[trigger] entries[i].path@, key@),
                found ==> at < entries.len() && entries[at as int].path@ == key@,
                !found ==> at == entries.len() || bytes_before(key@, entries[at as int].path@),
            decreases end - at,
        {
            let mid: usize = at + (end - at) / 2;
            match order_of(self.events[mid].path.as_slice(), key.as_slice()) {
                Order::Before => {
                    proof {
                        assert forall|i: int| 0 <= i < mid + 1 implies bytes_before(
                            #[trigger] entries[i].path@,
                            key@,
                        ) by {
                            if i < mid {
                                lemma_before_is_transitive(
                                    entries[i].path@,
                                    entries[mid as int].path@,
                                    key@,
                                );
                            }
                        }
                    }
                    at = mid + 1;
                },
                Order::Same => {
                    proof {
                        assert forall|i: int| 0 <= i < mid implies bytes_before(
                            #[trigger] entries[i].path@,
                            key@,
                        ) by {
                            assert(bytes_before(entries[i].path@, entries[mid as int].path@));
                        }
                    }
                    at = mid;
                    found = true;
                    break ;
                },
                Order::After => {
                    proof {
                        assert forall|i: int| mid <= i < entries.len() implies bytes_before(
                            key@,
                            #[trigger] entries[i].path@,
                        ) by {
                            if i > mid {
                                lemma_before_is_transitive(
                                    key@,
                                    entries[mid as int].path@,
                                    entries[i].path@,
                                );
                            }
                        }
                    }
                    end = mid;
                },
            }
        }
        proof {
            if at < entries.len() {
                if found {
                    if bytes_before(entries[at as int].path@, key@) {
                        lemma_before_is_strict(entries[at as int].path@, key@);
                    }
                } else {
                    lemma_before_is_strict(key@, entries[at as int].path@);
                }
            }
            let r = rank(entries, key@);
            if r < at {
                assert(bytes_before(entries[r].path@, key@));
            }
            if r > at {
                assert(bytes_before(entries[at as int].path@, key@));
                if found {
                    lemma_before_is_strict(entries[at as int].path@, key@);
                } else {
                    lemma_before_is_strict(key@, entries[at as int].path@);
                }
            }
            assert(r == at);
        }
        if found {
            let mut entry = self.events.remove(at);
            entry.events.push(data);
            self.events.insert(at, entry);
            proof {
                let next = self.events@;
                assert forall|i: int, j: int| 0 <= i < j < next.len() implies bytes_before(
                    (#[trigger] next[i]).path@,
                    (#[trigger] next[j]).path@,
                ) by {
                    assert(next[i].path@ == entries[i].path@);
                    assert(next[j].path@ == entries[j].path@);
                }
            }
        } else {
            let mut first: Vec<RgData> = Vec::new();
            first.push(data);
            self.events.insert(at, PathEvents { path: key, events: first });
            proof {
                let next = self.events@;
                assert forall|i: int, j: int| 0 <= i < j < next.len() implies bytes_before(
                    (#[trigger] next[i]).path@,
                    (#[trigger] next[j]).path@,
                ) by {
                    if j < at {
                        assert(next[i] == entries[i] && next[j] == entries[j]);
                    } else if i > at {
                        assert(next[i] == entries[i - 1] && next[j] == entries[j - 1]);
                    } else if i == at {
                        assert(next[j] == entries[j - 1]);
                        if j - 1 > at {
                            lemma_before_is_transitive(
                                key@,
                                entries[at as int].path@,
                                entries[j - 1].path@,
                            );
                        }
                    } else if j == at {
                        assert(next[i] == entries[i]);
                    } else {
                        assert(next[i] == entries[i]);
                        assert(next[j] == entries[j - 1]);
                        if j - 1 > at {
                            lemma_before_is_transitive(
                                key@,
                                entries[at as int].path@,
                                entries[j - 1].path@,
                            );
                        }
                        lemma_before_is_transitive(entries[i].path@, key@, entries[j - 1].path@);
                    }
                }
            }
        }
        Ok(())
    }

    /// One input for each path of the sink, in the order of the paths, with
    /// the byte ranges of its matches.
    pub fn into_items(self) -> (items: Vec<InputItem>)
        ensures
            items@.len() == self.events@.len(),
            forall|i: int|
                0 <= i < items@.len() ==> (#[trigger] items@[i] matches InputItem::RipgrepMatch {
                    path,
                    matches,
                } && path@ == utf8_lossy(self.events@[i].path@) && matches@ == ranges_of(
                    self.events@[i].events@,
                )),
    {
        let mut items: Vec<InputItem> = Vec::new();
        let mut i: usize = 0;
        while i < self.events.len()
            invariant
                i <= self.events@.len(),
                items@.len() == i,
                forall|k: int|
                    0 <= k < i ==> (#[trigger] items@[k] matches InputItem::RipgrepMatch {
                        path,
                        matches,
                    } && path@ == utf8_lossy(self.events@[k].path@) && matches@ == ranges_of(
                        self.events@[k].events@,
                    )),
            decreases self.events.len() - i,
        {
            let entry = &self.events[i];
            let path = lossy_text(entry.path.as_slice());
            let matches = match_ranges(&entry.events);
            items.push(InputItem::RipgrepMatch { path, matches });
            i = i + 1;
        }
        items
    }
}

impl RgSink for DeinterleavingSink {
    /// The paths of the sink ascend.
    open spec fn valid(self) -> bool {
        paths_ascend(self.events@)
    }

    /// The sink files the message under its path, where it has one, and
    /// refuses a path whose base64 is refused.
    open spec fn takes(self, msg: RgMessage, next: Self, ok: bool) -> bool {
        match filed_under(msg) {
            None => ok && next.events@ == self.events@,
            Some(path) => match path.bytes_of() {
                Err(_) => !ok && next.events@ == self.events@,
                Ok(key) => ok && holds_one_more(next.events@, self.events@, key, msg.data->0),
            },
        }
    }

    fn handle(&mut self, msg: RgMessage) -> (r: Result<(), Error>) {
        self.file(msg)
    }
}

impl DeinterleavingSink {
    /// Whether the paths of the sink ascend strictly.
    pub fn is_ordered(&self) -> (r: bool)
        ensures
            r == paths_ascend(self.events@),
    {
        let mut i: usize = 1;
        while i < self.events.len()
            invariant
                1 <= i,
                forall|a: int, b: int|
                    0 <= a < b < i && b < self.events@.len() ==> bytes_before(
                        (#[trigger] self.events@[a]).path@,
                        (#[trigger] self.events@[b]).path@,
                    ),
            decreases self.events.len() - i,
        {
            match order_of(self.events[i - 1].path.as_slice(), self.events[i].path.as_slice()) {
                Order::Before => {},
                _ => {
                    proof {
                        if bytes_before(self.events@[i - 1].path@, self.events@[i as int].path@) {
                            lemma_before_is_strict(
                                self.events@[i - 1].path@,
                                self.events@[i as int].path@,
                            );
                        }
                    }
                    return false;
                },
            }
            proof {
                assert forall|a: int, b: int|
                    0 <= a < b < i + 1 && b < self.events@.len() implies bytes_before(
                    (#[trigger] self.events@[a]).path@,
                    (#[trigger] self.events@[b]).path@,
                ) by {
                    if b == i && a < i - 1 {
                        lemma_before_is_transitive(
                            self.events@[a].path@,
                            self.events@[i - 1].path@,
                            self.events@[i as int].path@,
                        );
                    }
                }
            }
            i = i + 1;
        }
        true
    }
}

/// The byte range of a match in the file, where the machine can address it.
pub open spec fn submatch_range(offset: u64, sub: RgSubmatch) -> Option<ReplacementRange> {
    if offset + sub.start <= usize::MAX && offset + sub.end <= usize::MAX {
        Some(
            ReplacementRange {
                start: (offset + sub.start) as usize,
                end: (offset + sub.end) as usize,
            },
        )
    } else {
        None
    }
}

/// The byte ranges of the given matches of a line at `offset`, in order.
pub open spec fn line_ranges(offset: u64, subs: Seq<RgSubmatch>) -> Seq<ReplacementRange>
    decreases subs.len(),
{
    if subs.len() == 0 {
        Seq::empty()
    } else {
        match submatch_range(offset, subs.last()) {
            Some(range) => line_ranges(offset, subs.drop_last()).push(range),
            None => line_ranges(offset, subs.drop_last()),
        }
    }
}

/// The byte ranges of the matches of one message: each match of its line,
/// moved by the offset of the line in the file. A message without an
/// offset gives none.
pub open spec fn event_ranges(event: RgData) -> Seq<ReplacementRange> {
    match event.absolute_offset {
        Some(offset) => line_ranges(offset, event.submatches@),
        None => Seq::empty(),
    }
}

/// The byte ranges of the matches of the given messages, in order.
pub open spec fn ranges_of(events: Seq<RgData>) -> Seq<ReplacementRange>
    decreases events.len(),
{
    if events.len() == 0 {
        Seq::empty()
    } else {
        ranges_of(events.drop_last()) + event_ranges(events.last())
    }
}

/// The byte ranges of the matches of the given messages, in order.
pub fn match_ranges(events: &Vec<RgData>) -> (ranges: Vec<ReplacementRange>)
    ensures
        ranges@ == ranges_of(events@),
{
    let mut ranges: Vec<ReplacementRange> = Vec::new();
    let mut i: usize = 0;
    while i < events.len()
        invariant
            i <= events@.len(),
            ranges@ == ranges_of(events@.take(i as int)),
        decreases events.len() - i,
    {
        let event = &events[i];
        let ghost sofar = ranges@;
        proof {
            assert(events@.take(i + 1).drop_last() == events@.take(i as int));
            assert(events@.take(i + 1).last() == events@[i as int]);
        }
        if let Some(offset) = event.absolute_offset {
            let mut k: usize = 0;
            while k < event.submatches.len()
                invariant
                    k <= event.submatches@.len(),
                    ranges@ == sofar + line_ranges(offset, event.submatches@.take(k as int)),
                decreases event.submatches.len() - k,
            {
                let sub = &event.submatches[k];
                proof {
                    assert(event.submatches@.take(k + 1).drop_last() == event.submatches@.take(
                        k as int,
                    ));
                    assert(event.submatches@.take(k + 1).last() == event.submatches@[k as int]);
                }
                let limit: u128 = usize::MAX as u128;
                let start: u128 = offset as u128 + sub.start as u128;
                let end: u128 = offset as u128 + sub.end as u128;
                if start <= limit && end <= limit {
                    ranges.push(ReplacementRange { start: start as usize, end: end as usize });
                }
                k = k + 1;
                proof {
                    assert(ranges@ =~= sofar + line_ranges(
                        offset,
                        event.submatches@.take(k as int),
                    ));
                }
            }
            proof {
                assert(event.submatches@.take(event.submatches@.len() as int)
                    == event.submatches@);
            }
        } else {
            proof {
                assert(ranges@ =~= sofar + event_ranges(*event));
            }
        }
        i = i + 1;
    }
    proof {
        assert(events@.take(events@.len() as int) == events@);
    }
    ranges
}

/// A line without the line feeds and carriage returns at its end.
pub open spec fn frame_end(input: Seq<u8>, start: int, end: int) -> int
    decreases end - start,
{
    if end > start && (input[end - 1] == CARRIAGE_RETURN || input[end - 1] == LINE_FEED) {
        frame_end(input, start, end - 1)
    } else {
        end
    }
}

/// The frames given by `lines`: each line without the carriage returns at
/// its end, without the empty ones.
pub open spec fn kept_frames(input: Seq<u8>, lines: Seq<(usize, usize)>) -> Seq<Seq<u8>>
    decreases lines.len(),
{
    if lines.len() == 0 {
        Seq::empty()
    } else {
        let start = lines.last().0 as int;
        let end = frame_end(input, start, lines.last().1 as int);
        if end <= start {
            kept_frames(input, lines.drop_last())
        } else {
            kept_frames(input, lines.drop_last()).push(input.subrange(start, end))
        }
    }
}

/// The frames of a stream of messages, one per line: the lines of `input`
/// without their line endings, without the empty ones.
pub open spec fn frames_of(input: Seq<u8>) -> Seq<Seq<u8>> {
    kept_frames(input, runs(input, ByteClass::Line))
}

/// The frames of a stream of messages, each to be read as one message.
pub fn ndjson_frames(input: &[u8]) -> (frames: Vec<Vec<u8>>)
    ensures
        frames@.len() == frames_of(input@).len(),
        forall|i: int| 0 <= i < frames@.len() ==> (#[trigger] frames@[i])@ == frames_of(input@)[i],
{
    let lines = split_runs(input, ByteClass::Line);
    let mut frames: Vec<Vec<u8>> = Vec::new();
    let mut i: usize = 0;
    while i < lines.len()
        invariant
            i <= lines@.len(),
            lines@ == runs(input@, ByteClass::Line),
            forall|k: int|
                0 <= k < lines@.len() ==> (#[trigger] lines@[k]).0 < lines@[k].1 <= input@.len(),
            frames@.len() == kept_frames(input@, lines@.take(i as int)).len(),
            forall|k: int|
                0 <= k < frames@.len() ==> (#[trigger] frames@[k])@ == kept_frames(
                    input@,
                    lines@.take(i as int),
                )[k],
        decreases lines.len() - i,
    {
        let (start, stop) = lines[i];
        let mut end: usize = stop;
        while end > start && (input[end - 1] == CARRIAGE_RETURN || input[end - 1] == LINE_FEED)
            invariant
                start <= end <= stop <= input@.len(),
                frame_end(input@, start as int, stop as int) == frame_end(
                    input@,
                    start as int,
                    end as int,
                ),
            decreases end - start,
        {
            end = end - 1;
        }
        proof {
            assert(lines@.take(i + 1).drop_last() == lines@.take(i as int));
            assert(lines@.take(i + 1).last() == lines@[i as int]);
        }
        if end > start {
            frames.push(slice_to_vec(&input[start..end]));
        }
        i = i + 1;
    }
    proof {
        assert(lines@.take(lines@.len() as int) == lines@);
    }
    frames
}

} // verus!
