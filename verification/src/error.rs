//! Errors returned by the agent client, and the classification of HTTP
//! statuses into them.

use vstd::prelude::*;

verus! {

/// The transport error type of the HTTP client.
#[verifier::external_type_specification]
#[verifier::external_body]
pub struct ExReqwestError(reqwest::Error);

/// Errors returned by the agent client.
#[derive(Debug)]
pub enum AgentError {
    /// HTTP transport error (connection refused, DNS failure, etc.)
    Http(reqwest::Error),
    /// Server returned a non-2xx, non-auth error (500, 502, 503, 429, etc.)
    ServerError { status: u16 },
    /// Server rejected the authentication credentials (401 or 403).
    AuthFailed { status: u16 },
    /// Configuration is invalid (empty URL, missing token, etc.)
    Config(String),
}

/// A status in the 2xx range, which the client treats as success.
pub open spec fn is_success_status(status: u16) -> bool {
    200 <= status < 300
}

/// A status by which the server rejects the credentials.
pub open spec fn is_auth_rejection(status: u16) -> bool {
    status == 401 || status == 403
}

/// What the client makes of the status of a response: 401 and 403 are an
/// authentication failure, any other status outside 2xx a server error, and
/// a 2xx status lets the stream be read.
pub fn check_status(status: u16) -> (r: Result<(), AgentError>)
    ensures
        match r {
            Ok(()) => !is_auth_rejection(status) && is_success_status(status),
            Err(AgentError::AuthFailed { status: s }) => s == status && is_auth_rejection(status),
            Err(AgentError::ServerError { status: s }) => s == status && !is_auth_rejection(status)
                && !is_success_status(status),
            Err(_) => false,
        },
        (r matches Err(AgentError::AuthFailed { .. })) <==> (status == 401 || status == 403),
        (200 <= status <= 299) ==> r is Ok,
        r is Ok ==> 200 <= status <= 299,
        !(200 <= status <= 299) && status != 401 && status != 403 ==> (r matches Err(
            AgentError::ServerError { status: s },
        ) && s == status),
{
    if status == 401 || status == 403 {
        return Err(AgentError::AuthFailed { status });
    }
    if !(200 <= status && status < 300) {
        return Err(AgentError::ServerError { status });
    }
    Ok(())
}

/// The statuses that reject credentials are exactly 401 and 403, and the
/// successful ones exactly 200 through 299; every other status is a server
/// error, which the client retries.
pub proof fn lemma_status_classes(status: u16)
    ensures
        is_auth_rejection(status) <==> (status == 401 || status == 403),
        is_success_status(status) <==> (200 <= status <= 299),
        !(200 <= status <= 299) && status != 401 && status != 403 ==> !is_auth_rejection(status)
            && !is_success_status(status),
{
}

} // verus!
