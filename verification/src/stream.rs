//! Turning the bytes of an SSE response body into events.
//!
//! Chunks of the body are decoded as UTF-8 (lossily, chunk by chunk) and
//! appended to a text buffer; complete lines (ended by `\n`) are taken from
//! the front of the buffer and fed to the [`SseParser`]. The reader also
//! remembers the id of the most recent event that carried one, which the
//! client replays as `Last-Event-ID` when it reconnects.

use vstd::prelude::*;
use vstd::utf8::{decode_utf8, encode_scalar, encode_utf8, valid_utf8};

use crate::sse::{
    empty_event, feed_line_spec, lemma_blank_line_hands_out_pending, lemma_carriage_return_ignored,
    lemma_data_line_sets_data, lemma_event_emitted_only_with_data, lemma_id_line_sets_id,
    opt_event_view, SseEvent, SseEventView, SseParser,
};
use crate::text::{
    find_char, first_index_of, is_first_index_of, is_unicode_whitespace, lemma_first_index_of,
    trim_end_char,
};

verus! {

/// The text that `String::from_utf8_lossy` makes of `bytes`: their UTF-8
/// decoding, with each invalid sequence replaced by U+FFFD.
pub uninterp spec fn utf8_lossy_text(bytes: Seq<u8>) -> Seq<char>;

/// Calls `String::from_utf8_lossy` and takes ownership of the text.
/// Trusted: that the result is the function's (deterministic) output on the
/// bytes, and, as its documentation states, that bytes that are valid UTF-8
/// come back decoded and unchanged.
#[verifier::external_body]
fn decode_utf8_lossy(bytes: &[u8]) -> (r: String)
    ensures
        r@ == utf8_lossy_text(bytes@),
        valid_utf8(bytes@) ==> r@ == decode_utf8(bytes@),
{
    String::from_utf8_lossy(bytes).into_owned()
}

/// The state of a reader: the text not yet split into lines, the event being
/// accumulated, and the id of the last event handed out with an id.
pub struct ReaderView {
    pub buffer: Seq<char>,
    pub pending: SseEventView,
    pub latest_id: Option<Seq<char>>,
}

/// Takes lines from the front of `buffer` and feeds them to the parser until
/// one completes an event or no complete line is left. Gives the remaining
/// buffer, the pending event and the completed event, if any.
pub open spec fn next_event_spec(buffer: Seq<char>, pending: SseEventView) -> (
    Seq<char>,
    SseEventView,
    Option<SseEventView>,
)
    decreases buffer.len(),
{
    match first_index_of(buffer, '\n') {
        None => (buffer, pending, None),
        Some(p) => {
            proof {
                lemma_first_index_of(buffer, '\n');
            }
            let (next, event) = feed_line_spec(pending, buffer.take(p));
            let rest = buffer.skip(p + 1);
            if event is Some {
                (rest, next, event)
            } else {
                next_event_spec(rest, next)
            }
        },
    }
}

/// The last event id seen once `event` is handed out.
pub open spec fn latest_id_after(latest: Option<Seq<char>>, event: Option<SseEventView>) -> Option<Seq<char>> {
    match event {
        Some(e) => match e.id {
            Some(id) => Some(id),
            None => latest,
        },
        None => latest,
    }
}

/// Incremental reader of an SSE response body.
pub struct EventStreamReader {
    buffer: String,
    parser: SseParser,
    latest_id: Option<String>,
}

impl View for EventStreamReader {
    type V = ReaderView;

    closed spec fn view(&self) -> ReaderView {
        ReaderView {
            buffer: self.buffer@,
            pending: self.parser@,
            latest_id: self.latest_id.deep_view(),
        }
    }
}

impl EventStreamReader {
    /// A reader that has seen nothing.
    pub fn new() -> (r: Self)
        ensures
            r@ == (ReaderView {
                buffer: Seq::<char>::empty(),
                pending: empty_event(),
                latest_id: None,
            }),
    {
        EventStreamReader { buffer: String::new(), parser: SseParser::new(), latest_id: None }
    }

    /// Appends a chunk of the response body, decoded as UTF-8 with invalid
    /// sequences replaced, to the text still to be split into lines.
    pub fn push_chunk(&mut self, chunk: &[u8])
        ensures
            final(self)@ == (ReaderView { buffer: old(self)@.buffer + utf8_lossy_text(chunk@), ..old(self)@ }),
            valid_utf8(chunk@) ==> final(self)@.buffer == old(self)@.buffer + decode_utf8(chunk@),
    {
        let text = decode_utf8_lossy(chunk);
        self.buffer.append(text.as_str());
    }

    /// Reads complete lines until one ends an event, and hands that event
    /// out; `None` once no complete line is left. The id of a handed-out
    /// event, if it has one, becomes the latest id.
    pub fn next_event(&mut self) -> (r: Option<SseEvent>)
        ensures
            ({
                let (buffer, pending, event) = next_event_spec(old(self)@.buffer, old(self)@.pending);
                &&& final(self)@.buffer == buffer
                &&& final(self)@.pending == pending
                &&& opt_event_view(r) == event
                &&& final(self)@.latest_id == latest_id_after(old(self)@.latest_id, event)
            }),
    {
        let ghost goal = next_event_spec(self@.buffer, self@.pending);
        loop
            invariant
                next_event_spec(self@.buffer, self@.pending) == goal,
                self@.latest_id == old(self)@.latest_id,
                goal == next_event_spec(old(self)@.buffer, old(self)@.pending),
            decreases self@.buffer.len(),
        {
            let len = self.buffer.as_str().unicode_len();
            match find_char(self.buffer.as_str(), '\n') {
                None => {
                    return None;
                },
                Some(pos) => {
                    proof {
                        lemma_first_index_of(self@.buffer, '\n');
                    }
                    let line = self.buffer.as_str().substring_char(0, pos).to_owned();
                    let rest = self.buffer.as_str().substring_char(pos + 1, len).to_owned();
                    assert(line@ =~= self@.buffer.take(pos as int));
                    assert(rest@ =~= self@.buffer.skip(pos + 1));
                    self.buffer = rest;
                    match self.parser.feed_line(line.as_str()) {
                        Some(event) => {
                            match &event.id {
                                Some(id) => {
                                    self.latest_id = Some(id.clone());
                                },
                                None => {},
                            }
                            return Some(event);
                        },
                        None => {},
                    }
                },
            }
        }
    }

    /// The id of the most recent event handed out that carried one.
    pub fn latest_id(&self) -> (r: Option<String>)
        ensures
            r.deep_view() == self@.latest_id,
    {
        match &self.latest_id {
            Some(id) => Some(id.clone()),
            None => None,
        }
    }
}

/// All the events that the complete lines of `buffer` produce, in order,
/// with the text left after the last complete line and the pending event.
pub open spec fn drain_events_spec(buffer: Seq<char>, pending: SseEventView) -> (
    Seq<SseEventView>,
    Seq<char>,
    SseEventView,
)
    decreases buffer.len(),
{
    match first_index_of(buffer, '\n') {
        None => (Seq::empty(), buffer, pending),
        Some(p) => {
            proof {
                lemma_first_index_of(buffer, '\n');
            }
            let (next, event) = feed_line_spec(pending, buffer.take(p));
            let (events, rest, last) = drain_events_spec(buffer.skip(p + 1), next);
            match event {
                Some(e) => (seq![e] + events, rest, last),
                None => (events, rest, last),
            }
        },
    }
}

/// Calling `next_event` until it gives `None` hands out exactly the events
/// of all complete lines: one step either gives the first of them, with the
/// rest still to come from the new state, or none when there are none.
pub proof fn lemma_next_event_drains(buffer: Seq<char>, pending: SseEventView)
    ensures
        ({
            let (rest, next, event) = next_event_spec(buffer, pending);
            let (events, left, last) = drain_events_spec(buffer, pending);
            match event {
                Some(e) => {
                    &&& events.len() > 0
                    &&& events[0] == e
                    &&& drain_events_spec(rest, next) == (events.drop_first(), left, last)
                },
                None => events.len() == 0 && rest == left && next == last,
            }
        }),
    decreases buffer.len(),
{
    lemma_first_index_of(buffer, '\n');
    match first_index_of(buffer, '\n') {
        None => {},
        Some(p) => {
            let (next, event) = feed_line_spec(pending, buffer.take(p));
            lemma_next_event_drains(buffer.skip(p + 1), next);
            match event {
                Some(e) => {
                    let (events, rest, last) = drain_events_spec(buffer.skip(p + 1), next);
                    assert((seq![e] + events).drop_first() =~= events);
                },
                None => {},
            }
        },
    }
}

/// Once `next_event` gives `None`, no complete line is left in the buffer:
/// every line received so far has been fed to the parser.
pub proof fn lemma_no_complete_line_left(buffer: Seq<char>, pending: SseEventView)
    ensures
        next_event_spec(buffer, pending).2 is None ==> first_index_of(next_event_spec(buffer, pending).0, '\n') is None,
    decreases buffer.len(),
{
    lemma_first_index_of(buffer, '\n');
    match first_index_of(buffer, '\n') {
        None => {},
        Some(p) => {
            let (next, event) = feed_line_spec(pending, buffer.take(p));
            lemma_no_complete_line_left(buffer.skip(p + 1), next);
        },
    }
}

/// A newline found in a prefix is the first newline of any extension.
proof fn lemma_first_newline_of_extension(b1: Seq<char>, b2: Seq<char>)
    ensures
        first_index_of(b1, '\n') matches Some(p) ==> {
            &&& first_index_of(b1 + b2, '\n') == Some(p)
            &&& (b1 + b2).take(p) == b1.take(p)
            &&& (b1 + b2).skip(p + 1) == b1.skip(p + 1) + b2
        },
{
    lemma_first_index_of(b1, '\n');
    lemma_first_index_of(b1 + b2, '\n');
    if first_index_of(b1, '\n') is Some {
        let p = first_index_of(b1, '\n')->0;
        assert(is_first_index_of(b1 + b2, '\n', p));
        assert((b1 + b2).take(p) =~= b1.take(p));
        assert((b1 + b2).skip(p + 1) =~= b1.skip(p + 1) + b2);
    }
}

/// How the text arrives does not matter: reading the events of `b1 + b2`
/// gives the events of `b1`, followed by those of what `b1` left over with
/// `b2` appended. Draining the reader after each chunk or only after the
/// last one hands out the same events and leaves the same state.
pub proof fn lemma_drain_split(b1: Seq<char>, b2: Seq<char>, pending: SseEventView)
    ensures
        ({
            let (e1, left1, p1) = drain_events_spec(b1, pending);
            let (e2, left2, p2) = drain_events_spec(left1 + b2, p1);
            drain_events_spec(b1 + b2, pending) == (e1 + e2, left2, p2)
        }),
    decreases b1.len(),
{
    lemma_first_newline_of_extension(b1, b2);
    lemma_first_index_of(b1, '\n');
    match first_index_of(b1, '\n') {
        None => {
            let (e2, left2, p2) = drain_events_spec(b1 + b2, pending);
            assert(Seq::<SseEventView>::empty() + e2 =~= e2);
        },
        Some(p) => {
            let (next, event) = feed_line_spec(pending, b1.take(p));
            lemma_drain_split(b1.skip(p + 1), b2, next);
            let (e1r, left1, p1) = drain_events_spec(b1.skip(p + 1), next);
            let (e2, left2, p2) = drain_events_spec(left1 + b2, p1);
            match event {
                Some(e) => {
                    assert(seq![e] + e1r + e2 =~= seq![e] + (e1r + e2));
                },
                None => {},
            }
        },
    }
}

/// UTF-8 encoding distributes over concatenation.
proof fn lemma_encode_utf8_concat(s1: Seq<char>, s2: Seq<char>)
    ensures
        encode_utf8(s1 + s2) == encode_utf8(s1) + encode_utf8(s2),
    decreases s1.len(),
{
    if s1.len() == 0 {
        assert(s1 + s2 =~= s2);
        assert(encode_utf8(s1) + encode_utf8(s2) =~= encode_utf8(s2));
    } else {
        lemma_encode_utf8_concat(s1.drop_first(), s2);
        assert((s1 + s2).drop_first() =~= s1.drop_first() + s2);
        assert((s1 + s2)[0] == s1[0]);
        let head = encode_scalar(s1[0] as u32);
        assert(head + (encode_utf8(s1.drop_first()) + encode_utf8(s2)) =~= (head + encode_utf8(
            s1.drop_first(),
        )) + encode_utf8(s2));
    }
}

/// Chunks split at character boundaries decode to the text of the whole:
/// pushing `a` and then `b` leaves the same buffer as pushing `a + b`.
pub proof fn lemma_push_chunks_concat(buffer: Seq<char>, a: Seq<u8>, b: Seq<u8>)
    requires
        valid_utf8(a),
        valid_utf8(b),
    ensures
        valid_utf8(a + b),
        buffer + decode_utf8(a) + decode_utf8(b) == buffer + decode_utf8(a + b),
{
    broadcast use vstd::utf8::valid_utf8_concat, vstd::utf8::decode_utf8_encode_utf8, vstd::utf8::encode_utf8_decode_utf8;

    let da = decode_utf8(a);
    let db = decode_utf8(b);
    lemma_encode_utf8_concat(da, db);
    assert(encode_utf8(da) == a);
    assert(encode_utf8(db) == b);
    assert(encode_utf8(da + db) == a + b);
    assert(decode_utf8(encode_utf8(da + db)) == da + db);
    assert(buffer + da + db =~= buffer + (da + db));
}

/// The latest event id once `events` are handed out in order, starting from
/// `latest`: the id of the last of them that carries one, else `latest`.
pub open spec fn latest_id_over(latest: Option<Seq<char>>, events: Seq<SseEventView>) -> Option<Seq<char>>
    decreases events.len(),
{
    if events.len() == 0 {
        latest
    } else {
        latest_id_over(latest_id_after(latest, Some(events[0])), events.drop_first())
    }
}

/// After draining, the text left holds no complete line.
pub proof fn lemma_drain_leaves_no_line(buffer: Seq<char>, pending: SseEventView)
    ensures
        first_index_of(drain_events_spec(buffer, pending).1, '\n') is None,
    decreases buffer.len(),
{
    lemma_first_index_of(buffer, '\n');
    match first_index_of(buffer, '\n') {
        None => {},
        Some(p) => {
            let (next, event) = feed_line_spec(pending, buffer.take(p));
            lemma_drain_leaves_no_line(buffer.skip(p + 1), next);
        },
    }
}

/// Calling `next_event` until it gives `None` leaves as latest id the one
/// that `latest_id_over` gives for all the events of the buffer: one step
/// moves the latest id over the event it hands out, and the rest of the
/// events come from the new state.
pub proof fn lemma_latest_id_over_drain(latest: Option<Seq<char>>, buffer: Seq<char>, pending: SseEventView)
    ensures
        ({
            let (rest, next, event) = next_event_spec(buffer, pending);
            latest_id_over(latest, drain_events_spec(buffer, pending).0) == latest_id_over(
                latest_id_after(latest, event),
                drain_events_spec(rest, next).0,
            )
        }),
{
    lemma_next_event_drains(buffer, pending);
    let (rest, next, event) = next_event_spec(buffer, pending);
    if event is None {
        lemma_no_complete_line_left(buffer, pending);
        lemma_first_index_of(rest, '\n');
    }
}

/// The latest id over two runs of events is the latest id over the second
/// run, started from the latest id over the first.
pub proof fn lemma_latest_id_over_concat(latest: Option<Seq<char>>, e1: Seq<SseEventView>, e2: Seq<SseEventView>)
    ensures
        latest_id_over(latest, e1 + e2) == latest_id_over(latest_id_over(latest, e1), e2),
    decreases e1.len(),
{
    if e1.len() == 0 {
        assert(e1 + e2 =~= e2);
    } else {
        assert((e1 + e2).drop_first() =~= e1.drop_first() + e2);
        lemma_latest_id_over_concat(latest_id_after(latest, Some(e1[0])), e1.drop_first(), e2);
    }
}

/// Every complete line of `buffer` is non-blank once its trailing `\r`s are
/// removed.
pub open spec fn all_lines_nonblank(buffer: Seq<char>) -> bool
    decreases buffer.len(),
{
    match first_index_of(buffer, '\n') {
        None => true,
        Some(p) => {
            proof {
                lemma_first_index_of(buffer, '\n');
            }
            trim_end_char(buffer.take(p), '\r').len() > 0 && all_lines_nonblank(buffer.skip(p + 1))
        },
    }
}

/// Lines that are none of them blank end no event.
proof fn lemma_nonblank_lines_yield_nothing(buffer: Seq<char>, pending: SseEventView)
    requires
        all_lines_nonblank(buffer),
    ensures
        drain_events_spec(buffer, pending).0.len() == 0,
    decreases buffer.len(),
{
    lemma_first_index_of(buffer, '\n');
    match first_index_of(buffer, '\n') {
        None => {},
        Some(p) => {
            let (next, event) = feed_line_spec(pending, buffer.take(p));
            lemma_event_emitted_only_with_data(pending, buffer.take(p));
            lemma_nonblank_lines_yield_nothing(buffer.skip(p + 1), next);
        },
    }
}

/// What follows the last event of a body is never delivered: when the text
/// `tail` after `body` holds no blank line (an event still being written, or
/// an unterminated line), the events of `body + tail` are those of `body`,
/// and so is the latest id that they leave.
pub proof fn lemma_unfinished_tail_delivers_nothing(
    latest: Option<Seq<char>>,
    body: Seq<char>,
    tail: Seq<char>,
    pending: SseEventView,
)
    requires
        all_lines_nonblank(drain_events_spec(body, pending).1 + tail),
    ensures
        drain_events_spec(body + tail, pending).0 == drain_events_spec(body, pending).0,
        latest_id_over(latest, drain_events_spec(body + tail, pending).0) == latest_id_over(
            latest,
            drain_events_spec(body, pending).0,
        ),
{
    lemma_drain_split(body, tail, pending);
    let (e1, left1, p1) = drain_events_spec(body, pending);
    lemma_nonblank_lines_yield_nothing(left1 + tail, p1);
    let e2 = drain_events_spec(left1 + tail, p1).0;
    assert(e1 + e2 =~= e1);
}

/// An unterminated last line is never delivered, nor is its id returned.
pub proof fn lemma_unterminated_line_delivers_nothing(
    latest: Option<Seq<char>>,
    body: Seq<char>,
    tail: Seq<char>,
    pending: SseEventView,
)
    requires
        first_index_of(tail, '\n') is None,
    ensures
        drain_events_spec(body + tail, pending).0 == drain_events_spec(body, pending).0,
        latest_id_over(latest, drain_events_spec(body + tail, pending).0) == latest_id_over(
            latest,
            drain_events_spec(body, pending).0,
        ),
{
    let left = drain_events_spec(body, pending).1;
    lemma_drain_leaves_no_line(body, pending);
    lemma_first_index_of(left, '\n');
    lemma_first_index_of(tail, '\n');
    lemma_first_index_of(left + tail, '\n');
    assert forall|j: int| 0 <= j < (left + tail).len() implies (left + tail)[j] != '\n' by {
        if j < left.len() {
            assert((left + tail)[j] == left[j]);
        } else {
            assert((left + tail)[j] == tail[j - left.len()]);
        }
    }
    lemma_unfinished_tail_delivers_nothing(latest, body, tail, pending);
}

/// The text of chunks received one after the other.
pub open spec fn concat_chunks(chunks: Seq<Seq<char>>) -> Seq<char>
    decreases chunks.len(),
{
    if chunks.len() == 0 {
        Seq::empty()
    } else {
        chunks[0] + concat_chunks(chunks.drop_first())
    }
}

/// A reader that appends each chunk in turn to the text `left` and drains
/// the events after each: the events, the text left and the pending event.
pub open spec fn drain_chunks_spec(chunks: Seq<Seq<char>>, left: Seq<char>, pending: SseEventView) -> (
    Seq<SseEventView>,
    Seq<char>,
    SseEventView,
)
    decreases chunks.len(),
{
    if chunks.len() == 0 {
        (Seq::empty(), left, pending)
    } else {
        let (e1, l1, p1) = drain_events_spec(left + chunks[0], pending);
        let (e2, l2, p2) = drain_chunks_spec(chunks.drop_first(), l1, p1);
        (e1 + e2, l2, p2)
    }
}

/// However a body's text is cut into chunks, draining after each chunk hands
/// out the events of the whole text, and leaves the same text and pending
/// event.
pub proof fn lemma_any_chunking_same_events(chunks: Seq<Seq<char>>, left: Seq<char>, pending: SseEventView)
    requires
        first_index_of(left, '\n') is None,
    ensures
        drain_chunks_spec(chunks, left, pending) == drain_events_spec(left + concat_chunks(chunks), pending),
    decreases chunks.len(),
{
    if chunks.len() == 0 {
        assert(left + concat_chunks(chunks) =~= left);
        lemma_first_index_of(left, '\n');
    } else {
        let rest = concat_chunks(chunks.drop_first());
        assert(left + concat_chunks(chunks) =~= (left + chunks[0]) + rest);
        lemma_drain_split(left + chunks[0], rest, pending);
        let (e1, l1, p1) = drain_events_spec(left + chunks[0], pending);
        lemma_drain_leaves_no_line(left + chunks[0], pending);
        lemma_any_chunking_same_events(chunks.drop_first(), l1, p1);
    }
}

/// The bytes of chunks received one after the other.
pub open spec fn concat_byte_chunks(chunks: Seq<Seq<u8>>) -> Seq<u8>
    decreases chunks.len(),
{
    if chunks.len() == 0 {
        Seq::empty()
    } else {
        chunks[0] + concat_byte_chunks(chunks.drop_first())
    }
}

/// Byte chunks cut at character boundaries decode to the text of the whole
/// body: the chunked text is the body's text.
pub proof fn lemma_byte_chunks_decode(chunks: Seq<Seq<u8>>)
    requires
        forall|i: int| 0 <= i < chunks.len() ==> valid_utf8(#[trigger] chunks[i]),
    ensures
        valid_utf8(concat_byte_chunks(chunks)),
        concat_chunks(chunks.map_values(|c: Seq<u8>| decode_utf8(c))) == decode_utf8(concat_byte_chunks(chunks)),
    decreases chunks.len(),
{
    let decoded = chunks.map_values(|c: Seq<u8>| decode_utf8(c));
    if chunks.len() == 0 {
        assert(decode_utf8(Seq::<u8>::empty()) =~= Seq::<char>::empty());
    } else {
        let tail = chunks.drop_first();
        assert forall|i: int| 0 <= i < tail.len() implies valid_utf8(#[trigger] tail[i]) by {
            assert(tail[i] == chunks[i + 1]);
        }
        lemma_byte_chunks_decode(tail);
        assert(decoded.drop_first() =~= tail.map_values(|c: Seq<u8>| decode_utf8(c)));
        assert(valid_utf8(chunks[0]));
        lemma_push_chunks_concat(Seq::empty(), chunks[0], concat_byte_chunks(tail));
        assert(Seq::<char>::empty() + decode_utf8(chunks[0]) + decode_utf8(concat_byte_chunks(tail))
            =~= decode_utf8(chunks[0]) + decode_utf8(concat_byte_chunks(tail)));
        assert(Seq::<char>::empty() + decode_utf8(chunks[0] + concat_byte_chunks(tail))
            =~= decode_utf8(chunks[0] + concat_byte_chunks(tail)));
    }
}

/// A text with each `\n` written as `\r\n`.
pub open spec fn lf_to_crlf(s: Seq<char>) -> Seq<char>
    decreases s.len(),
{
    if s.len() == 0 {
        s
    } else {
        (if s[0] == '\n' {
            seq!['\r', '\n']
        } else {
            seq![s[0]]
        }) + lf_to_crlf(s.drop_first())
    }
}

/// Writing line ends as `\r\n` distributes over concatenation.
proof fn lemma_lf_to_crlf_concat(a: Seq<char>, b: Seq<char>)
    ensures
        lf_to_crlf(a + b) == lf_to_crlf(a) + lf_to_crlf(b),
    decreases a.len(),
{
    if a.len() == 0 {
        assert(a + b =~= b);
        assert(lf_to_crlf(a) + lf_to_crlf(b) =~= lf_to_crlf(b));
    } else {
        assert((a + b).drop_first() =~= a.drop_first() + b);
        assert((a + b)[0] == a[0]);
        lemma_lf_to_crlf_concat(a.drop_first(), b);
        let head = if a[0] == '\n' {
            seq!['\r', '\n']
        } else {
            seq![a[0]]
        };
        assert(head + (lf_to_crlf(a.drop_first()) + lf_to_crlf(b)) =~= (head + lf_to_crlf(a.drop_first())) + lf_to_crlf(b));
    }
}

/// A text without `\n` is unchanged by writing line ends as `\r\n`.
proof fn lemma_lf_to_crlf_no_newline(a: Seq<char>)
    requires
        forall|j: int| 0 <= j < a.len() ==> a[j] != '\n',
    ensures
        lf_to_crlf(a) == a,
    decreases a.len(),
{
    if a.len() > 0 {
        lemma_lf_to_crlf_no_newline(a.drop_first());
        assert(seq![a[0]] + a.drop_first() =~= a);
    }
}

/// A body whose line ends are `\r\n` gives the same events, and leaves the
/// same pending event, as the body with `\n` line ends.
pub proof fn lemma_crlf_body_same_events(buffer: Seq<char>, pending: SseEventView)
    ensures
        ({
            let (events, left, last) = drain_events_spec(buffer, pending);
            drain_events_spec(lf_to_crlf(buffer), pending) == (events, lf_to_crlf(left), last)
        }),
    decreases buffer.len(),
{
    lemma_first_index_of(buffer, '\n');
    match first_index_of(buffer, '\n') {
        None => {
            lemma_lf_to_crlf_no_newline(buffer);
        },
        Some(k) => {
            let line = buffer.take(k);
            let rest = buffer.skip(k + 1);
            assert(buffer =~= line + (seq!['\n'] + rest));
            lemma_lf_to_crlf_concat(line, seq!['\n'] + rest);
            lemma_lf_to_crlf_concat(seq!['\n'], rest);
            lemma_lf_to_crlf_no_newline(line);
            assert(lf_to_crlf(seq!['\n']) =~= seq!['\r', '\n']) by {
                let nl = seq!['\n'];
                assert(nl[0] == '\n');
                assert(nl.drop_first() =~= Seq::<char>::empty());
                assert(lf_to_crlf(nl.drop_first()) =~= Seq::<char>::empty());
                assert(seq!['\r', '\n'] + Seq::<char>::empty() =~= seq!['\r', '\n']);
            }
            let crlf = lf_to_crlf(buffer);
            assert(crlf =~= line + seq!['\r', '\n'] + lf_to_crlf(rest));
            assert(is_first_index_of(crlf, '\n', k + 1)) by {
                assert forall|j: int| 0 <= j < k + 1 implies crlf[j] != '\n' by {
                    if j < k {
                        assert(crlf[j] == line[j]);
                    }
                }
            }
            lemma_first_index_of(crlf, '\n');
            assert(crlf.take(k + 1) =~= line.push('\r'));
            assert(crlf.skip(k + 2) =~= lf_to_crlf(rest));
            lemma_carriage_return_ignored(pending, line);
            let (next, event) = feed_line_spec(pending, line);
            lemma_crlf_body_same_events(rest, next);
        },
    }
}

/// The first line of `line + "\n" + rest`, when `line` holds no `\n`.
proof fn lemma_first_line(line: Seq<char>, rest: Seq<char>)
    requires
        forall|j: int| 0 <= j < line.len() ==> line[j] != '\n',
    ensures
        first_index_of(line + seq!['\n'] + rest, '\n') == Some(line.len() as int),
        (line + seq!['\n'] + rest).take(line.len() as int) == line,
        (line + seq!['\n'] + rest).skip(line.len() as int + 1) == rest,
{
    let b = line + seq!['\n'] + rest;
    assert(is_first_index_of(b, '\n', line.len() as int)) by {
        assert forall|j: int| 0 <= j < line.len() implies b[j] != '\n' by {
            assert(b[j] == line[j]);
        }
    }
    lemma_first_index_of(b, '\n');
    assert(b.take(line.len() as int) =~= line);
    assert(b.skip(line.len() as int + 1) =~= rest);
}

/// A body `id: x`, `data: v`, blank line, read from a fresh reader, hands out
/// the event with id `x` and data `v` (and no event type), leaves the text
/// after the blank line, and makes `x` the latest id.
pub proof fn lemma_reads_id_and_data_event(x: Seq<char>, v: Seq<char>, rest: Seq<char>, latest: Option<Seq<char>>)
    requires
        forall|j: int| 0 <= j < x.len() ==> x[j] != '\n',
        forall|j: int| 0 <= j < v.len() ==> v[j] != '\n',
        x.len() > 0 ==> !is_unicode_whitespace(x[0]) && x.last() != '\r',
        v.len() > 0 ==> !is_unicode_whitespace(v[0]) && v.last() != '\r',
    ensures
        ({
            let body = "id: "@ + x + seq!['\n'] + "data: "@ + v + seq!['\n', '\n'] + rest;
            let event = SseEventView { event_type: None, data: Some(v), id: Some(x) };
            &&& next_event_spec(body, empty_event()) == (rest, empty_event(), Some(event))
            &&& latest_id_after(latest, Some(event)) == Some(x)
        }),
{
    reveal_strlit("id: ");
    reveal_strlit("data: ");
    reveal_strlit("");
    let l1 = "id: "@ + x;
    let l2 = "data: "@ + v;
    let body = l1 + seq!['\n'] + l2 + seq!['\n', '\n'] + rest;
    let rest1 = l2 + seq!['\n'] + (seq!['\n'] + rest);
    let rest2 = Seq::<char>::empty() + seq!['\n'] + rest;
    assert(body =~= l1 + seq!['\n'] + rest1);
    assert(seq!['\n'] + rest =~= rest2);
    assert forall|j: int| 0 <= j < l1.len() implies l1[j] != '\n' by {
        if j >= 4 {
            assert(l1[j] == x[j - 4]);
        }
    }
    assert forall|j: int| 0 <= j < l2.len() implies l2[j] != '\n' by {
        if j >= 6 {
            assert(l2[j] == v[j - 6]);
        }
    }
    lemma_first_line(l1, rest1);
    lemma_id_line_sets_id(empty_event(), x);
    let p1 = SseEventView { event_type: None, data: None, id: Some(x) };
    lemma_first_line(l2, seq!['\n'] + rest);
    lemma_data_line_sets_data(p1, v);
    let p2 = SseEventView { event_type: None, data: Some(v), id: Some(x) };
    lemma_first_line(Seq::<char>::empty(), rest);
    assert(""@ =~= Seq::<char>::empty());
    lemma_blank_line_hands_out_pending(p2);
    assert(body =~= "id: "@ + x + seq!['\n'] + "data: "@ + v + seq!['\n', '\n'] + rest);
    assert(next_event_spec(rest2, p2) == (rest, empty_event(), Some(p2)));
    assert(next_event_spec(rest1, p1) == next_event_spec(rest2, p2));
    assert(next_event_spec(body, empty_event()) == next_event_spec(rest1, p1));
}

} // verus!
