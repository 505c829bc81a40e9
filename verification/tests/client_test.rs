use signals_sdk::config::{validate_config, AgentConfig};
use signals_sdk::error::{check_status, AgentError};
use signals_sdk::reconnect::{after_stream, ReconnectStep};
use signals_sdk::stream::EventStreamReader;
use signals_sdk::request::{
    build_url, can_build_url, query_params, request_headers, signals_endpoint, try_build_url,
};

fn config(server_url: &str, token: &str, workspace_id: &str) -> AgentConfig {
    AgentConfig {
        server_url: server_url.to_string(),
        token: token.to_string(),
        workspace_id: workspace_id.to_string(),
        kind_filter: None,
        source_filter: None,
    }
}

fn config_message(r: Result<(), AgentError>) -> String {
    match r {
        Err(AgentError::Config(msg)) => msg,
        other => panic!("expected a configuration error, got {:?}", other),
    }
}

#[test]
fn valid_config_is_accepted() {
    assert!(validate_config(&config("https://tell.example.com", "tok", "ws")).is_ok());
}

#[test]
fn empty_fields_are_rejected_in_order() {
    assert_eq!(config_message(validate_config(&config("", "", ""))), "server_url must not be empty");
    assert_eq!(config_message(validate_config(&config("u", "", ""))), "token must not be empty");
    assert_eq!(config_message(validate_config(&config("u", "t", ""))), "workspace_id must not be empty");
}

#[test]
fn status_classification() {
    assert!(check_status(200).is_ok());
    assert!(check_status(204).is_ok());
    assert!(check_status(299).is_ok());
    assert!(matches!(check_status(401), Err(AgentError::AuthFailed { status: 401 })));
    assert!(matches!(check_status(403), Err(AgentError::AuthFailed { status: 403 })));
    assert!(matches!(check_status(500), Err(AgentError::ServerError { status: 500 })));
    assert!(matches!(check_status(429), Err(AgentError::ServerError { status: 429 })));
    assert!(matches!(check_status(199), Err(AgentError::ServerError { status: 199 })));
    assert!(matches!(check_status(300), Err(AgentError::ServerError { status: 300 })));
    assert!(matches!(check_status(404), Err(AgentError::ServerError { status: 404 })));
}

#[test]
fn endpoint_strips_trailing_slashes() {
    assert_eq!(signals_endpoint("https://tell.example.com"), "https://tell.example.com/api/v1/signals");
    assert_eq!(signals_endpoint("https://tell.example.com//"), "https://tell.example.com/api/v1/signals");
    assert_eq!(signals_endpoint("/"), "/api/v1/signals");
}

#[test]
fn url_without_filters_is_the_endpoint() {
    let c = config("https://tell.example.com/", "t", "w");
    assert_eq!(build_url(&c), "https://tell.example.com/api/v1/signals");
    // Without filters the endpoint is not parsed at all.
    let c = config("not a url", "t", "w");
    assert_eq!(try_build_url(&c).as_deref(), Some("not a url/api/v1/signals"));
}

#[test]
fn url_with_filters_is_percent_encoded() {
    let mut c = config("https://tell.example.com", "t", "w");
    c.kind_filter = Some("ip.*".to_string());
    c.source_filter = Some("transform:jail:*".to_string());
    assert_eq!(
        build_url(&c),
        "https://tell.example.com/api/v1/signals?kind=ip.*&source=transform%3Ajail%3A*"
    );
    let mut c = config("https://tell.example.com", "t", "w");
    c.source_filter = Some("a b&c".to_string());
    assert_eq!(build_url(&c), "https://tell.example.com/api/v1/signals?source=a+b%26c");
}

#[test]
fn url_with_filters_on_invalid_server_is_refused() {
    let mut c = config("not a url", "t", "w");
    c.kind_filter = Some("ip.*".to_string());
    assert_eq!(try_build_url(&c), None);
}

#[test]
fn query_params_in_order() {
    let mut c = config("u", "t", "w");
    assert!(query_params(&c).is_empty());
    c.source_filter = Some("s".to_string());
    c.kind_filter = Some("k".to_string());
    assert_eq!(
        query_params(&c),
        vec![("kind".to_string(), "k".to_string()), ("source".to_string(), "s".to_string())]
    );
}

#[test]
fn headers_with_and_without_resume_id() {
    let c = config("u", "secret", "ws_abc123");
    let h = request_headers(&c, &None);
    assert_eq!(
        h,
        vec![
            ("Authorization".to_string(), "Bearer secret".to_string()),
            ("X-Workspace-ID".to_string(), "ws_abc123".to_string()),
            ("Accept".to_string(), "text/event-stream".to_string()),
        ]
    );
    let h = request_headers(&c, &Some("41".to_string()));
    assert_eq!(h.len(), 4);
    assert_eq!(h[3], ("Last-Event-ID".to_string(), "41".to_string()));
}

#[test]
fn clean_end_records_id_and_resets_backoff() {
    let mut last = Some("1".to_string());
    let step = after_stream(&mut last, &Ok(Some("9".to_string())), false);
    assert_eq!(step, ReconnectStep::Retry { reset_delay: true });
    assert_eq!(last.as_deref(), Some("9"));
    let step = after_stream(&mut last, &Ok(None), false);
    assert_eq!(step, ReconnectStep::Retry { reset_delay: true });
    assert_eq!(last.as_deref(), Some("9"));
}

#[test]
fn errors_keep_id_and_backoff() {
    let mut last = Some("9".to_string());
    let step = after_stream(&mut last, &Err(AgentError::ServerError { status: 503 }), false);
    assert_eq!(step, ReconnectStep::Retry { reset_delay: false });
    assert_eq!(last.as_deref(), Some("9"));
    // The id survives, so the next request replays from it.
    let h = request_headers(&config("u", "t", "w"), &last);
    assert_eq!(h[3], ("Last-Event-ID".to_string(), "9".to_string()));
}

#[test]
fn auth_failure_or_closed_receiver_stops() {
    let mut last = None;
    assert_eq!(
        after_stream(&mut last, &Err(AgentError::AuthFailed { status: 401 }), false),
        ReconnectStep::Stop
    );
    assert_eq!(after_stream(&mut last, &Ok(Some("3".to_string())), true), ReconnectStep::Stop);
    assert_eq!(last.as_deref(), Some("3"));
    assert_eq!(
        after_stream(&mut last, &Err(AgentError::Config("x".to_string())), true),
        ReconnectStep::Stop
    );
}

#[test]
fn replay_after_clean_end_of_stream() {
    let mut reader = EventStreamReader::new();
    reader.push_chunk(b"id: 7\ndata: {}\n\n");
    let event = reader.next_event().expect("event");
    assert_eq!(event.id.as_deref(), Some("7"));
    let mut last = Some("3".to_string());
    let step = after_stream(&mut last, &Ok(reader.latest_id()), false);
    assert_eq!(step, ReconnectStep::Retry { reset_delay: true });
    let h = request_headers(&config("u", "t", "w"), &last);
    assert_eq!(h.last(), Some(&("Last-Event-ID".to_string(), "7".to_string())));
}

#[test]
fn resume_id_over_many_attempts() {
    let outcomes: Vec<Result<Option<String>, AgentError>> = vec![
        Err(AgentError::ServerError { status: 502 }),
        Ok(None),
        Ok(Some("4".to_string())),
        Err(AgentError::ServerError { status: 500 }),
        Ok(None),
        Ok(Some("8".to_string())),
        Err(AgentError::Config("x".to_string())),
    ];
    let expected = [None, None, Some("4"), Some("4"), Some("4"), Some("8"), Some("8")];
    let mut last = None;
    for (outcome, want) in outcomes.iter().zip(expected.iter()) {
        after_stream(&mut last, outcome, false);
        assert_eq!(last.as_deref(), *want);
    }
}

#[test]
fn can_build_url_matches_try_build_url() {
    let plain = config("not a url", "t", "w");
    assert!(can_build_url(&plain));
    let mut filtered = config("not a url", "t", "w");
    filtered.kind_filter = Some("k".to_string());
    assert!(!can_build_url(&filtered));
    assert_eq!(try_build_url(&filtered), None);
    let mut good = config("https://tell.example.com", "t", "w");
    good.kind_filter = Some("k".to_string());
    assert!(can_build_url(&good));
    assert_eq!(
        try_build_url(&good).as_deref(),
        Some("https://tell.example.com/api/v1/signals?kind=k")
    );
}
