use signals_sdk::sse::SseParser;

#[test]
fn parses_complete_event() {
    let mut parser = SseParser::new();
    assert!(parser.feed_line("event: signal").is_none());
    assert!(parser.feed_line("id: 42").is_none());
    assert!(parser.feed_line("data: {\"kind\":\"ip.banned\"}").is_none());

    let event = parser.feed_line("").expect("empty line should yield event");
    assert_eq!(event.event_type.as_deref(), Some("signal"));
    assert_eq!(event.id.as_deref(), Some("42"));
    assert_eq!(event.data.as_deref(), Some("{\"kind\":\"ip.banned\"}"));
}

#[test]
fn ignores_comments() {
    let mut parser = SseParser::new();
    assert!(parser.feed_line(": keep-alive").is_none());
    assert!(parser.feed_line("data: hello").is_none());
    let event = parser.feed_line("").expect("should yield event");
    assert_eq!(event.data.as_deref(), Some("hello"));
}

#[test]
fn empty_line_without_data_yields_nothing() {
    let mut parser = SseParser::new();
    assert!(parser.feed_line("event: signal").is_none());
    // Empty line but no data field accumulated
    assert!(parser.feed_line("").is_none());
}

#[test]
fn handles_carriage_return() {
    let mut parser = SseParser::new();
    assert!(parser.feed_line("data: payload\r").is_none());
    let event = parser.feed_line("").expect("should yield event");
    assert_eq!(event.data.as_deref(), Some("payload"));
}

#[test]
fn consecutive_events() {
    let mut parser = SseParser::new();

    parser.feed_line("data: first");
    let e1 = parser.feed_line("").expect("first event");
    assert_eq!(e1.data.as_deref(), Some("first"));

    parser.feed_line("data: second");
    let e2 = parser.feed_line("").expect("second event");
    assert_eq!(e2.data.as_deref(), Some("second"));
    // First event state should not leak into second
    assert!(e2.event_type.is_none());
}

#[test]
fn field_without_colon() {
    let mut parser = SseParser::new();
    // A line with no colon — treated as a field with empty value (spec-compliant)
    assert!(parser.feed_line("data").is_none());
    // Parser stores empty string as data
    let event = parser.feed_line("").expect("should yield event");
    assert_eq!(event.data.as_deref(), Some(""));
}

#[test]
fn crlf_blank_line_ends_event() {
    let mut parser = SseParser::new();
    assert!(parser.feed_line("data: x\r\r").is_none());
    let event = parser.feed_line("\r").expect("a line of only CRs is blank");
    assert_eq!(event.data.as_deref(), Some("x"));
}

#[test]
fn comment_keeps_pending_fields() {
    let mut parser = SseParser::new();
    assert!(parser.feed_line("id: 7").is_none());
    assert!(parser.feed_line(":comment: with colons").is_none());
    assert!(parser.feed_line("data: d").is_none());
    let event = parser.feed_line("").expect("event");
    assert_eq!(event.id.as_deref(), Some("7"));
    assert_eq!(event.data.as_deref(), Some("d"));
}

#[test]
fn value_is_trimmed_of_leading_whitespace_only() {
    let mut parser = SseParser::new();
    assert!(parser.feed_line("data:\t \u{3000}a: b  ").is_none());
    let event = parser.feed_line("").expect("event");
    assert_eq!(event.data.as_deref(), Some("a: b  "));
}

#[test]
fn later_field_replaces_earlier() {
    let mut parser = SseParser::new();
    parser.feed_line("data: one");
    parser.feed_line("data: two");
    parser.feed_line("event: a");
    parser.feed_line("event: b");
    let event = parser.feed_line("").expect("event");
    assert_eq!(event.data.as_deref(), Some("two"));
    assert_eq!(event.event_type.as_deref(), Some("b"));
    assert!(event.id.is_none());
}

#[test]
fn unknown_fields_are_ignored() {
    let mut parser = SseParser::new();
    assert!(parser.feed_line("retry: 1000").is_none());
    assert!(parser.feed_line("Data: upper").is_none());
    assert!(parser.feed_line("").is_none());
    assert!(parser.feed_line("data:x").is_none());
    let event = parser.feed_line("").expect("event");
    assert_eq!(event.data.as_deref(), Some("x"));
    assert!(event.event_type.is_none());
}

#[test]
fn fields_without_data_survive_a_blank_line() {
    let mut parser = SseParser::new();
    assert!(parser.feed_line("event: signal").is_none());
    assert!(parser.feed_line("").is_none());
    assert!(parser.feed_line("data: late").is_none());
    let event = parser.feed_line("").expect("event");
    assert_eq!(event.event_type.as_deref(), Some("signal"));
    assert_eq!(event.data.as_deref(), Some("late"));
}
