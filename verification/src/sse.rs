//! Minimal SSE line parser for signal events.
//!
//! Handles the subset of the Server-Sent Events format that signal streams
//! use: `event:`, `data:` and `id:` fields, empty-line event boundaries, and
//! `:` comment keep-alives.

use vstd::prelude::*;

use crate::text::{
    find_char, first_index_of, is_first_index_of, is_unicode_whitespace, leading_whitespace_len,
    lemma_first_index_of, str_equals, trim_end_char, trim_start_whitespace, trimmed_end_len,
};

verus! {

/// The fields of an SSE event, as sequences of characters.
pub struct SseEventView {
    pub event_type: Option<Seq<char>>,
    pub data: Option<Seq<char>>,
    pub id: Option<Seq<char>>,
}

/// A single parsed SSE event.
#[derive(Debug)]
pub struct SseEvent {
    pub event_type: Option<String>,
    pub data: Option<String>,
    pub id: Option<String>,
}

impl View for SseEvent {
    type V = SseEventView;

    open spec fn view(&self) -> SseEventView {
        SseEventView {
            event_type: self.event_type.deep_view(),
            data: self.data.deep_view(),
            id: self.id.deep_view(),
        }
    }
}

/// The event with no field set.
pub open spec fn empty_event() -> SseEventView {
    SseEventView { event_type: None, data: None, id: None }
}

/// The view of an optional event.
pub open spec fn opt_event_view(e: Option<SseEvent>) -> Option<SseEventView> {
    match e {
        Some(ev) => Some(ev@),
        None => None,
    }
}

impl SseEvent {
    /// An event with no field set.
    pub fn new() -> (r: Self)
        ensures
            r@ == empty_event(),
    {
        SseEvent { event_type: None, data: None, id: None }
    }
}

/// A line (without its `\r` tail) split into its field name and its value:
/// the name is what precedes the first `:`, the value what follows it with
/// its leading whitespace removed. A line without `:` is a name with an
/// empty value.
pub open spec fn split_field(t: Seq<char>) -> (Seq<char>, Seq<char>) {
    match first_index_of(t, ':') {
        Some(p) => (t.take(p), trim_start_whitespace(t.skip(p + 1))),
        None => (t, Seq::<char>::empty()),
    }
}

/// The pending event once the field `field` with value `value` is read:
/// `event`, `data` and `id` replace the field of that name, any other name
/// leaves the event unchanged.
pub open spec fn apply_field(pending: SseEventView, field: Seq<char>, value: Seq<char>) -> SseEventView {
    if field == "event"@ {
        SseEventView { event_type: Some(value), ..pending }
    } else if field == "data"@ {
        SseEventView { data: Some(value), ..pending }
    } else if field == "id"@ {
        SseEventView { id: Some(value), ..pending }
    } else {
        pending
    }
}

/// One step of the parser: the pending event after `line`, and the event that
/// `line` completes, if any. A line that is empty once its trailing `\r`s are
/// removed ends the pending event, which is handed out (and the parser reset)
/// only when it holds a `data` field. A line that starts with `:` is a comment.
pub open spec fn feed_line_spec(pending: SseEventView, line: Seq<char>) -> (SseEventView, Option<SseEventView>) {
    let t = trim_end_char(line, '\r');
    if t.len() == 0 {
        if pending.data is Some {
            (empty_event(), Some(pending))
        } else {
            (pending, None)
        }
    } else if t[0] == ':' {
        (pending, None)
    } else {
        let (field, value) = split_field(t);
        (apply_field(pending, field, value), None)
    }
}

/// Incremental SSE parser that accumulates fields until an empty-line boundary.
#[derive(Debug)]
pub struct SseParser {
    current: SseEvent,
}

impl View for SseParser {
    type V = SseEventView;

    /// The event accumulated so far.
    closed spec fn view(&self) -> SseEventView {
        self.current@
    }
}

impl SseParser {
    /// A parser with nothing accumulated.
    pub fn new() -> (r: Self)
        ensures
            r@ == empty_event(),
    {
        SseParser { current: SseEvent::new() }
    }

    /// Feed a single line (without trailing newline).
    ///
    /// Returns `Some(event)` when an empty line signals event completion.
    /// Comment lines (`:` prefix) and unknown fields are silently ignored.
    pub fn feed_line(&mut self, line: &str) -> (r: Option<SseEvent>)
        ensures
            (final(self)@, opt_event_view(r)) == feed_line_spec(old(self)@, line@),
    {
        let end = trimmed_end_len(line, '\r');
        let trimmed = line.substring_char(0, end);
        if end == 0 {
            if self.current.data.is_some() {
                let mut event = SseEvent::new();
                std::mem::swap(&mut event, &mut self.current);
                return Some(event);
            }
            return None;
        }
        if trimmed.get_char(0) == ':' {
            return None;
        }
        let (field, value) = match find_char(trimmed, ':') {
            Some(pos) => {
                proof {
                    lemma_first_index_of(trimmed@, ':');
                }
                let rest = trimmed.substring_char(pos + 1, end);
                let skip = leading_whitespace_len(rest);
                let value = rest.substring_char(skip, rest.unicode_len());
                assert(rest@ =~= trimmed@.skip(pos + 1));
                assert(value@ =~= rest@.skip(skip as int));
                let field = trimmed.substring_char(0, pos);
                assert(field@ =~= trimmed@.take(pos as int));
                (field, value)
            },
            None => (trimmed, ""),
        };
        proof {
            assert(""@ =~= Seq::<char>::empty()) by {
                reveal_strlit("");
            }
        }
        if str_equals(field, "event") {
            self.current.event_type = Some(value.to_owned());
        } else if str_equals(field, "data") {
            self.current.data = Some(value.to_owned());
        } else if str_equals(field, "id") {
            self.current.id = Some(value.to_owned());
        }
        None
    }
}

/// A line ending in `\r` is read as the same line without it: a CRLF stream
/// parses as its LF counterpart.
pub proof fn lemma_carriage_return_ignored(pending: SseEventView, line: Seq<char>)
    ensures
        feed_line_spec(pending, line.push('\r')) == feed_line_spec(pending, line),
{
    assert(line.push('\r').drop_last() =~= line);
}

/// A comment line neither changes the pending event nor completes one.
pub proof fn lemma_comment_ignored(pending: SseEventView, line: Seq<char>)
    requires
        line.len() > 0,
        line[0] == ':',
    ensures
        feed_line_spec(pending, line) == (pending, Option::<SseEventView>::None),
{
    lemma_trim_end_keeps_prefix(line, '\r');
    assert(trim_end_char(line, '\r')[0] == line[0]);
}

/// A line naming a field other than `event`, `data` or `id` (such as
/// `retry`) neither changes the pending event nor completes one.
pub proof fn lemma_unknown_field_ignored(pending: SseEventView, line: Seq<char>)
    requires
        trim_end_char(line, '\r').len() > 0,
        trim_end_char(line, '\r')[0] != ':',
        split_field(trim_end_char(line, '\r')).0 != "event"@,
        split_field(trim_end_char(line, '\r')).0 != "data"@,
        split_field(trim_end_char(line, '\r')).0 != "id"@,
    ensures
        feed_line_spec(pending, line) == (pending, Option::<SseEventView>::None),
{
}

/// Trimming a trailing character keeps a prefix of the sequence.
proof fn lemma_trim_end_keeps_prefix(s: Seq<char>, c: char)
    ensures
        trim_end_char(s, c).len() <= s.len(),
        trim_end_char(s, c) =~= s.take(trim_end_char(s, c).len() as int),
        s.len() > 0 && s[0] != c ==> trim_end_char(s, c).len() > 0,
    decreases s.len(),
{
    if s.len() > 0 && s.last() == c {
        lemma_trim_end_keeps_prefix(s.drop_last(), c);
    }
}

/// An event is handed out only at a blank line, only when it holds a `data`
/// field, and it is then exactly the accumulated event; the parser starts
/// over empty, so nothing of one event leaks into the next. Until then a
/// field once set stays set (a later line of the same name replaces it).
pub proof fn lemma_event_emitted_only_with_data(pending: SseEventView, line: Seq<char>)
    ensures
        feed_line_spec(pending, line).1 is Some ==> {
            &&& pending.data is Some
            &&& trim_end_char(line, '\r').len() == 0
            &&& feed_line_spec(pending, line) == (empty_event(), Some(pending))
        },
        feed_line_spec(pending, line).1 is None ==> {
            let next = feed_line_spec(pending, line).0;
            &&& pending.event_type is Some ==> next.event_type is Some
            &&& pending.data is Some ==> next.data is Some
            &&& pending.id is Some ==> next.id is Some
        },
{
}

/// What a `data:` line writes is what the next blank line hands out: feeding
/// `data: v` and then an empty line yields the pending event with `data`
/// set to `v`, provided `v` neither starts with whitespace (which the parser
/// trims) nor ends with `\r` (which the line reader strips).
pub proof fn lemma_data_line_round_trip(pending: SseEventView, v: Seq<char>)
    requires
        v.len() > 0 ==> !is_unicode_whitespace(v[0]),
        v.len() > 0 ==> v.last() != '\r',
    ensures
        ({
            let after_data = feed_line_spec(pending, "data: "@ + v);
            &&& after_data.1 is None
            &&& after_data.0 == SseEventView { data: Some(v), ..pending }
            &&& feed_line_spec(after_data.0, ""@) == (
                empty_event(),
                Some(SseEventView { data: Some(v), ..pending }),
            )
        }),
{
    reveal_strlit("data: ");
    reveal_strlit("data");
    reveal_strlit("event");
    reveal_strlit("id");
    reveal_strlit("");
    let line = "data: "@ + v;
    assert(line.len() == 6 + v.len());
    assert(line.last() != '\r') by {
        if v.len() > 0 {
            assert(line.last() == v.last());
        } else {
            assert(line.last() == ' ');
        }
    }
    assert(trim_end_char(line, '\r') == line);
    assert(line[0] == 'd');
    assert(is_first_index_of(line, ':', 4));
    lemma_first_index_of(line, ':');
    assert(line.take(4) =~= "data"@);
    assert(line.skip(5).drop_first() =~= v);
    assert(is_unicode_whitespace(line.skip(5)[0]));
    assert(trim_start_whitespace(v) == v);
    assert(trim_start_whitespace(line.skip(5)) == v);
    assert("data"@ != "event"@) by {
        assert("data"@.len() != "event"@.len());
    }
    assert(trim_end_char(""@, '\r') =~= Seq::<char>::empty());
}

/// Trimming leading whitespace from whitespace followed by `v` gives `v`,
/// when `v` does not start with whitespace.
proof fn lemma_trim_start_prefix(w: Seq<char>, v: Seq<char>)
    requires
        forall|j: int| 0 <= j < w.len() ==> is_unicode_whitespace(#[trigger] w[j]),
        v.len() > 0 ==> !is_unicode_whitespace(v[0]),
    ensures
        trim_start_whitespace(w + v) == v,
    decreases w.len(),
{
    if w.len() == 0 {
        assert(w + v =~= v);
    } else {
        assert((w + v).drop_first() =~= w.drop_first() + v);
        assert((w + v)[0] == w[0]);
        assert forall|j: int| 0 <= j < w.drop_first().len() implies is_unicode_whitespace(
            #[trigger] w.drop_first()[j],
        ) by {
            assert(w.drop_first()[j] == w[j + 1]);
        }
        lemma_trim_start_prefix(w.drop_first(), v);
    }
}

/// Trimming trailing `c`s keeps every position up to a character other than
/// `c`.
proof fn lemma_trim_end_keeps_through(s: Seq<char>, c: char, i: int)
    requires
        0 <= i < s.len(),
        s[i] != c,
    ensures
        trim_end_char(s, c).len() > i,
        trim_end_char(s, c) =~= s.take(trim_end_char(s, c).len() as int),
    decreases s.len(),
{
    lemma_trim_end_keeps_prefix(s, c);
    if s.last() == c {
        assert(s.drop_last()[i] == s[i]);
        lemma_trim_end_keeps_through(s.drop_last(), c, i);
    }
}

/// A line `name:` followed by whitespace `w` and a value `v` is split into
/// `name` and `v` when `name` is a non-empty field name without `:` and `v`
/// neither starts with whitespace nor ends with `\r`; it then only applies
/// that field.
proof fn lemma_field_line(pending: SseEventView, name: Seq<char>, w: Seq<char>, v: Seq<char>)
    requires
        name.len() > 0,
        forall|j: int| 0 <= j < name.len() ==> name[j] != ':',
        forall|j: int| 0 <= j < w.len() ==> is_unicode_whitespace(#[trigger] w[j]),
        v.len() > 0 ==> !is_unicode_whitespace(v[0]),
        v.len() > 0 ==> v.last() != '\r',
        w.len() > 0 ==> w.last() != '\r',
    ensures
        feed_line_spec(pending, name + seq![':'] + w + v) == (
            apply_field(pending, name, v),
            Option::<SseEventView>::None,
        ),
{
    let line = name + seq![':'] + w + v;
    let n = name.len() as int;
    assert(line.last() != '\r') by {
        if v.len() > 0 {
            assert(line.last() == v.last());
        } else if w.len() > 0 {
            assert(line.last() == w.last());
        } else {
            assert(line.last() == ':');
        }
    }
    assert(trim_end_char(line, '\r') == line);
    assert(line[0] == name[0]);
    assert(is_first_index_of(line, ':', n)) by {
        assert forall|j: int| 0 <= j < n implies line[j] != ':' by {
            assert(line[j] == name[j]);
        }
    }
    lemma_first_index_of(line, ':');
    assert(line.take(n) =~= name);
    assert(line.skip(n + 1) =~= w + v);
    lemma_trim_start_prefix(w, v);
}

/// A line naming a field other than `event`, `data` or `id` (such as
/// `retry: 1000`) changes nothing and completes no event, whatever follows
/// its `:`.
pub proof fn lemma_other_field_ignored(pending: SseEventView, name: Seq<char>, rest: Seq<char>)
    requires
        name.len() > 0,
        forall|j: int| 0 <= j < name.len() ==> name[j] != ':',
        name != "event"@,
        name != "data"@,
        name != "id"@,
    ensures
        feed_line_spec(pending, name + seq![':'] + rest) == (pending, Option::<SseEventView>::None),
{
    let line = name + seq![':'] + rest;
    let n = name.len() as int;
    assert(line[n] == ':');
    lemma_trim_end_keeps_through(line, '\r', n);
    lemma_trim_end_keeps_prefix(line, '\r');
    let t = trim_end_char(line, '\r');
    assert(line[0] == name[0]);
    let l = t.len() as int;
    assert(l > n);
    assert(t == line.take(l));
    assert(line.take(l)[0] == line[0]);
    assert(line.take(l)[n] == line[n]);
    assert(t[0] == line[0]);
    assert(t[n] == line[n]);
    assert(t[0] == name[0]);
    assert(t[n] == ':');
    assert(is_first_index_of(t, ':', n)) by {
        assert forall|j: int| 0 <= j < n implies t[j] != ':' by {
            assert(line.take(l)[j] == line[j]);
            assert(t[j] == line[j]);
            assert(line[j] == name[j]);
        }
    }
    lemma_first_index_of(t, ':');
    assert(t.take(n) =~= name);
}

/// A field name alone, without `:`, sets that field to the empty text.
pub proof fn lemma_bare_field_name_sets_empty(pending: SseEventView)
    ensures
        feed_line_spec(pending, "data"@) == (
            SseEventView { event_type: pending.event_type, data: Some(Seq::empty()), id: pending.id },
            Option::<SseEventView>::None,
        ),
        feed_line_spec(pending, "id"@) == (
            SseEventView { event_type: pending.event_type, data: pending.data, id: Some(Seq::empty()) },
            Option::<SseEventView>::None,
        ),
        feed_line_spec(pending, "event"@) == (
            SseEventView { event_type: Some(Seq::empty()), data: pending.data, id: pending.id },
            Option::<SseEventView>::None,
        ),
{
    reveal_strlit("data");
    reveal_strlit("id");
    reveal_strlit("event");
    lemma_first_index_of("data"@, ':');
    lemma_first_index_of("id"@, ':');
    lemma_first_index_of("event"@, ':');
    assert("data"@.last() != '\r');
    assert("id"@.last() != '\r');
    assert("event"@.last() != '\r');
    assert(trim_end_char("data"@, '\r') == "data"@);
    assert(trim_end_char("id"@, '\r') == "id"@);
    assert(trim_end_char("event"@, '\r') == "event"@);
    assert("id"@ != "event"@) by {
        assert("id"@.len() != "event"@.len());
    }
    assert("id"@ != "data"@) by {
        assert("id"@.len() != "data"@.len());
    }
    assert("data"@ != "event"@) by {
        assert("data"@.len() != "event"@.len());
    }
}

/// All leading whitespace of a value is dropped, not only one space: `data:`
/// followed by whitespace and then `v` sets the data to `v`.
pub proof fn lemma_value_leading_whitespace_dropped(pending: SseEventView, w: Seq<char>, v: Seq<char>)
    requires
        forall|j: int| 0 <= j < w.len() ==> is_unicode_whitespace(#[trigger] w[j]),
        w.len() > 0 ==> w.last() != '\r',
        v.len() > 0 ==> !is_unicode_whitespace(v[0]),
        v.len() > 0 ==> v.last() != '\r',
    ensures
        feed_line_spec(pending, "data:"@ + w + v) == (
            SseEventView { event_type: pending.event_type, data: Some(v), id: pending.id },
            Option::<SseEventView>::None,
        ),
{
    reveal_strlit("data:");
    reveal_strlit("data");
    reveal_strlit("event");
    assert("data:"@ =~= "data"@ + seq![':']);
    lemma_field_line(pending, "data"@, w, v);
    assert("data"@ != "event"@) by {
        assert("data"@.len() != "event"@.len());
    }
}

/// An `id:` line sets the id of the pending event to its value, whatever
/// fields (`data` among them) are already pending, keeps the other two
/// fields, and completes no event.
pub proof fn lemma_id_line_sets_id(pending: SseEventView, v: Seq<char>)
    requires
        v.len() > 0 ==> !is_unicode_whitespace(v[0]),
        v.len() > 0 ==> v.last() != '\r',
    ensures
        feed_line_spec(pending, "id: "@ + v) == (
            SseEventView { event_type: pending.event_type, data: pending.data, id: Some(v) },
            Option::<SseEventView>::None,
        ),
{
    reveal_strlit("id: ");
    reveal_strlit("id");
    reveal_strlit("event");
    reveal_strlit("data");
    assert("id: "@ =~= "id"@ + seq![':'] + seq![' ']);
    lemma_field_line(pending, "id"@, seq![' '], v);
    assert("id"@ != "event"@) by {
        assert("id"@.len() != "event"@.len());
    }
    assert("id"@ != "data"@) by {
        assert("id"@.len() != "data"@.len());
    }
}

/// An `event:` line sets the event type of the pending event to its value,
/// whatever is already pending, keeps the other two fields, and completes no
/// event.
pub proof fn lemma_event_line_sets_event_type(pending: SseEventView, v: Seq<char>)
    requires
        v.len() > 0 ==> !is_unicode_whitespace(v[0]),
        v.len() > 0 ==> v.last() != '\r',
    ensures
        feed_line_spec(pending, "event: "@ + v) == (
            SseEventView { event_type: Some(v), data: pending.data, id: pending.id },
            Option::<SseEventView>::None,
        ),
{
    reveal_strlit("event: ");
    reveal_strlit("event");
    assert("event: "@ =~= "event"@ + seq![':'] + seq![' ']);
    lemma_field_line(pending, "event"@, seq![' '], v);
}

/// A `data:` line sets the data of the pending event to its value, whatever
/// is already pending, keeps the other two fields, and completes no event.
pub proof fn lemma_data_line_sets_data(pending: SseEventView, v: Seq<char>)
    requires
        v.len() > 0 ==> !is_unicode_whitespace(v[0]),
        v.len() > 0 ==> v.last() != '\r',
    ensures
        feed_line_spec(pending, "data: "@ + v) == (
            SseEventView { event_type: pending.event_type, data: Some(v), id: pending.id },
            Option::<SseEventView>::None,
        ),
{
    reveal_strlit("data: ");
    reveal_strlit("data");
    reveal_strlit("event");
    assert("data: "@ =~= "data"@ + seq![':'] + seq![' ']);
    lemma_field_line(pending, "data"@, seq![' '], v);
    assert("data"@ != "event"@) by {
        assert("data"@.len() != "event"@.len());
    }
}

/// A blank line hands out the pending event exactly, with all three of its
/// fields, when it holds data, and the parser starts over empty.
pub proof fn lemma_blank_line_hands_out_pending(pending: SseEventView)
    requires
        pending.data is Some,
    ensures
        feed_line_spec(pending, ""@) == (
            SseEventView { event_type: None, data: None, id: None },
            Some(SseEventView { event_type: pending.event_type, data: pending.data, id: pending.id }),
        ),
{
    reveal_strlit("");
    assert(trim_end_char(""@, '\r') =~= Seq::<char>::empty());
}

} // verus!
