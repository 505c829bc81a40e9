//! The subscription request: the SSE endpoint URL with its query filters,
//! and the headers sent with it.

use vstd::prelude::*;
use vstd::string::StringExecFns;

use crate::config::AgentConfig;
use crate::text::{trim_end_char, trimmed_end_len};

verus! {

/// The most characters, URL text and query pairs together (see
/// [`url_text_len`]), handed to the URL parser. The url crate keeps 32-bit
/// offsets into a URL's serialization and panics when one overflows. Its
/// serialization grows at most twelvefold over the text it is made from (a
/// four-byte character percent-encodes to twelve bytes), so twelve times this
/// bound, with sixteen bytes to spare for the `?` and the like, stays below
/// 2^32.
pub const MAX_URL_TEXT_CHARS: u64 = 357_913_939;

/// The characters that query pairs add to a URL's text before encoding: each
/// name and value, with one `=` and one `&` (or `?`) per pair.
pub open spec fn pairs_text_len(params: Seq<(Seq<char>, Seq<char>)>) -> nat
    decreases params.len(),
{
    if params.len() == 0 {
        0
    } else {
        pairs_text_len(params.drop_last()) + params.last().0.len() + params.last().1.len() + 2
    }
}

/// The characters of a URL text with its query pairs.
pub open spec fn url_text_len(input: Seq<char>, params: Seq<(Seq<char>, Seq<char>)>) -> nat {
    input.len() + pairs_text_len(params)
}

/// The serialization of the URL that `reqwest::Url::parse_with_params` makes
/// of `input` with the name/value pairs `params` appended to its query
/// (form-urlencoded), or `None` where `input` is no absolute URL.
pub uninterp spec fn url_with_params(input: Seq<char>, params: Seq<(Seq<char>, Seq<char>)>) -> Option<Seq<char>>;

/// Calls `reqwest::Url::parse_with_params` (that is, `url::Url`'s) and
/// converts the URL it gives into its serialization. Trusted: that the
/// outcome is the function's deterministic result on the input text and
/// the pairs, in their order. The bound on the text and the pairs keeps the
/// 32-bit offsets of the URL from overflowing, where the url crate panics.
#[verifier::external_body]
fn parse_url_with_params(input: &str, params: &Vec<(String, String)>) -> (r: Option<String>)
    requires
        url_text_len(input@, params.deep_view()) <= MAX_URL_TEXT_CHARS,
    ensures
        r.deep_view() == url_with_params(input@, params.deep_view()),
{
    reqwest::Url::parse_with_params(input, params.iter().map(|p| (p.0.as_str(), p.1.as_str()))).ok().map(
        String::from,
    )
}

/// The SSE endpoint of a server: its URL without trailing `/`s, followed by
/// `/api/v1/signals`.
pub open spec fn endpoint_spec(server_url: Seq<char>) -> Seq<char> {
    trim_end_char(server_url, '/') + "/api/v1/signals"@
}

/// The query filters of a configuration, in order: `kind`, then `source`,
/// each present when its filter is set.
pub open spec fn query_params_spec(config: AgentConfig) -> Seq<(Seq<char>, Seq<char>)> {
    let kind = match config.kind_filter {
        Some(k) => seq![("kind"@, k@)],
        None => Seq::empty(),
    };
    let source = match config.source_filter {
        Some(s) => seq![("source"@, s@)],
        None => Seq::empty(),
    };
    kind + source
}

/// The subscription URL of a configuration: the bare endpoint when no filter
/// is set, else the endpoint parsed as a URL with the filters appended to its
/// query (`None` where the endpoint is no valid URL, or where the endpoint and
/// the filters are too long for the URL parser's 32-bit offsets).
pub open spec fn subscription_url_spec(config: AgentConfig) -> Option<Seq<char>> {
    let endpoint = endpoint_spec(config.server_url@);
    let params = query_params_spec(config);
    if params.len() == 0 {
        Some(endpoint)
    } else if url_text_len(endpoint, params) <= MAX_URL_TEXT_CHARS {
        url_with_params(endpoint, params)
    } else {
        None
    }
}

/// The SSE endpoint of a server URL.
pub fn signals_endpoint(server_url: &str) -> (r: String)
    ensures
        r@ == endpoint_spec(server_url@),
        server_url@.len() == 0 || server_url@.last() != '/' ==> r@ == server_url@ + "/api/v1/signals"@,
{
    proof {
        if server_url@.len() == 0 || server_url@.last() != '/' {
            lemma_endpoint_keeps_server_url(server_url@, 0);
        }
    }
    let end = trimmed_end_len(server_url, '/');
    let base = server_url.substring_char(0, end).to_owned();
    base.concat("/api/v1/signals")
}

/// The query filters of a configuration as name/value pairs.
pub fn query_params(config: &AgentConfig) -> (r: Vec<(String, String)>)
    ensures
        r.deep_view() == query_params_spec(*config),
{
    let mut params: Vec<(String, String)> = Vec::new();
    match &config.kind_filter {
        Some(kind) => {
            params.push((String::from_str("kind"), kind.clone()));
        },
        None => {},
    }
    match &config.source_filter {
        Some(source) => {
            params.push((String::from_str("source"), source.clone()));
        },
        None => {},
    }
    assert(params.deep_view() =~= query_params_spec(*config));
    params
}

/// Build the SSE endpoint URL with optional query filters, or `None` where
/// filters are set and the endpoint does not parse as a URL (or is, with the
/// filters, too long for the URL parser).
pub fn try_build_url(config: &AgentConfig) -> (r: Option<String>)
    ensures
        r.deep_view() == subscription_url_spec(*config),
{
    if can_build_url(config) {
        Some(build_url(config))
    } else {
        None
    }
}

/// Whether the subscription URL of a configuration can be built: always
/// without filters; with filters, when the endpoint and the filters fit the
/// URL parser and the endpoint parses as a URL.
pub fn can_build_url(config: &AgentConfig) -> (r: bool)
    ensures
        r == (subscription_url_spec(*config) is Some),
{
    let endpoint = signals_endpoint(config.server_url.as_str());
    let params = query_params(config);
    if params.len() == 0 {
        return true;
    }
    if !fits_url_parser(endpoint.as_str(), &params) {
        return false;
    }
    parse_url_with_params(endpoint.as_str(), &params).is_some()
}

/// Whether a URL text and its query pairs are short enough for the URL
/// parser.
fn fits_url_parser(input: &str, params: &Vec<(String, String)>) -> (r: bool)
    ensures
        r == (url_text_len(input@, params.deep_view()) <= MAX_URL_TEXT_CHARS),
{
    let ghost pairs = params.deep_view();
    let input_len = input.unicode_len();
    if input_len as u64 > MAX_URL_TEXT_CHARS {
        proof {
            lemma_pairs_text_len_take(pairs, pairs.len() as int);
            assert(pairs.take(pairs.len() as int) =~= pairs);
        }
        return false;
    }
    let mut total: u64 = input_len as u64;
    let mut i: usize = 0;
    assert(pairs.take(0) =~= Seq::<(Seq<char>, Seq<char>)>::empty());
    while i < params.len()
        invariant
            pairs == params.deep_view(),
            i <= params.len(),
            total == input@.len() + pairs_text_len(pairs.take(i as int)),
            total <= MAX_URL_TEXT_CHARS,
        decreases params.len() - i,
    {
        let name_len = params[i].0.as_str().unicode_len() as u64;
        let value_len = params[i].1.as_str().unicode_len() as u64;
        assert(pairs.take(i + 1).drop_last() =~= pairs.take(i as int));
        assert(pairs[i as int] == (params[i as int].0@, params[i as int].1@));
        if name_len > MAX_URL_TEXT_CHARS - total || value_len > MAX_URL_TEXT_CHARS - total - name_len
            || 2 > MAX_URL_TEXT_CHARS - total - name_len - value_len {
            proof {
                lemma_pairs_text_len_take(pairs, i + 1);
            }
            return false;
        }
        total = total + name_len + value_len + 2;
        i = i + 1;
    }
    assert(pairs.take(i as int) =~= pairs);
    true
}

/// The text length of a prefix of the pairs is at most that of the pairs.
proof fn lemma_pairs_text_len_take(pairs: Seq<(Seq<char>, Seq<char>)>, n: int)
    requires
        0 <= n <= pairs.len(),
    ensures
        pairs_text_len(pairs.take(n)) <= pairs_text_len(pairs),
    decreases pairs.len() - n,
{
    if n < pairs.len() {
        lemma_pairs_text_len_take(pairs, n + 1);
        assert(pairs.take(n + 1).drop_last() =~= pairs.take(n));
    } else {
        assert(pairs.take(n) =~= pairs);
    }
}

/// Build the SSE endpoint URL with optional query filters (percent-encoded).
pub fn build_url(config: &AgentConfig) -> (r: String)
    requires
        subscription_url_spec(*config) is Some,
    ensures
        r@ == subscription_url_spec(*config)->0,
{
    let endpoint = signals_endpoint(config.server_url.as_str());
    let params = query_params(config);
    if params.len() == 0 {
        return endpoint;
    }
    let fits = fits_url_parser(endpoint.as_str(), &params);
    assert(fits);
    match parse_url_with_params(endpoint.as_str(), &params) {
        Some(url) => url,
        None => {
            assert(false);
            String::new()
        },
    }
}

/// The headers of a subscription request, in the order they are sent:
/// the bearer token, the workspace, the accepted media type, and the id to
/// resume after, when there is one.
pub open spec fn request_headers_spec(config: AgentConfig, last_event_id: Option<Seq<char>>) -> Seq<(Seq<char>, Seq<char>)> {
    let base = seq![
        ("Authorization"@, "Bearer "@ + config.token@),
        ("X-Workspace-ID"@, config.workspace_id@),
        ("Accept"@, "text/event-stream"@),
    ];
    match last_event_id {
        Some(id) => base.push(("Last-Event-ID"@, id)),
        None => base,
    }
}

/// The headers of a subscription request as name/value pairs.
pub fn request_headers(config: &AgentConfig, last_event_id: &Option<String>) -> (r: Vec<(String, String)>)
    ensures
        r.deep_view() == request_headers_spec(*config, last_event_id.deep_view()),
{
    let mut headers: Vec<(String, String)> = Vec::new();
    headers.push(
        (String::from_str("Authorization"), String::from_str("Bearer ").concat(config.token.as_str())),
    );
    headers.push((String::from_str("X-Workspace-ID"), config.workspace_id.clone()));
    headers.push((String::from_str("Accept"), String::from_str("text/event-stream")));
    match last_event_id {
        Some(id) => {
            headers.push((String::from_str("Last-Event-ID"), id.clone()));
        },
        None => {},
    }
    assert(headers.deep_view() =~= request_headers_spec(*config, last_event_id.deep_view()));
    headers
}

/// `n` slashes.
pub open spec fn slashes(n: nat) -> Seq<char> {
    Seq::new(n, |i: int| '/')
}

/// The endpoint keeps the whole server URL, base path included, and appends
/// `/api/v1/signals`; trailing `/`s of the server URL are dropped, so adding
/// any number of them does not change the endpoint.
pub proof fn lemma_endpoint_keeps_server_url(u: Seq<char>, n: nat)
    requires
        u.len() == 0 || u.last() != '/',
    ensures
        endpoint_spec(u) == u + "/api/v1/signals"@,
        endpoint_spec(u + slashes(n)) == u + "/api/v1/signals"@,
    decreases n,
{
    if n > 0 {
        lemma_endpoint_keeps_server_url(u, (n - 1) as nat);
        let s = u + slashes(n);
        assert(s.last() == '/');
        assert(s.drop_last() =~= u + slashes((n - 1) as nat));
    } else {
        assert(u + slashes(0) =~= u);
    }
}

/// The query of the subscription URL: none without filters (the URL is then
/// the bare endpoint), else `kind` with the kind filter, then `source` with
/// the source filter, each only when set; these pairs, in this order, and the
/// endpoint are what the URL parser is given.
pub proof fn lemma_subscription_url_filters(config: AgentConfig)
    ensures
        config.kind_filter is None && config.source_filter is None ==> subscription_url_spec(config)
            == Some(endpoint_spec(config.server_url@)),
        config.kind_filter matches Some(k) ==> (config.source_filter is None ==> query_params_spec(
            config,
        ) == seq![("kind"@, k@)]),
        config.source_filter matches Some(s) ==> (config.kind_filter is None ==> query_params_spec(
            config,
        ) == seq![("source"@, s@)]),
        config.kind_filter matches Some(k) ==> (config.source_filter matches Some(s)
            ==> query_params_spec(config) == seq![("kind"@, k@), ("source"@, s@)]),
        (config.kind_filter is Some || config.source_filter is Some) && url_text_len(
            endpoint_spec(config.server_url@),
            query_params_spec(config),
        ) <= MAX_URL_TEXT_CHARS ==> subscription_url_spec(config) == url_with_params(
            endpoint_spec(config.server_url@),
            query_params_spec(config),
        ),
{
    if config.kind_filter is Some || config.source_filter is Some {
        assert(query_params_spec(config).len() > 0);
    }
    if let Some(k) = config.kind_filter {
        if let Some(s) = config.source_filter {
            assert(seq![("kind"@, k@)] + seq![("source"@, s@)] =~= seq![("kind"@, k@), ("source"@, s@)]);
        } else {
            assert(seq![("kind"@, k@)] + Seq::<(Seq<char>, Seq<char>)>::empty() =~= seq![("kind"@, k@)]);
        }
    } else if let Some(s) = config.source_filter {
        assert(Seq::<(Seq<char>, Seq<char>)>::empty() + seq![("source"@, s@)] =~= seq![("source"@, s@)]);
    }
}

/// The headers of a subscription request: `Authorization: Bearer <token>`,
/// `X-Workspace-ID: <workspace>`, `Accept: text/event-stream`, and then
/// `Last-Event-ID: <id>` exactly when there is an id to resume after.
pub proof fn lemma_request_headers_content(config: AgentConfig, last_event_id: Option<Seq<char>>)
    ensures
        ({
            let h = request_headers_spec(config, last_event_id);
            &&& h.len() == (if last_event_id is Some { 4int } else { 3int })
            &&& h[0] == ("Authorization"@, "Bearer "@ + config.token@)
            &&& h[1] == ("X-Workspace-ID"@, config.workspace_id@)
            &&& h[2] == ("Accept"@, "text/event-stream"@)
            &&& last_event_id matches Some(id) ==> h[3] == ("Last-Event-ID"@, id)
        }),
{
}

} // verus!
