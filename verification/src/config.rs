//! The connection settings of the agent client and their validation.

use vstd::prelude::*;
use vstd::string::StringExecFns;

use crate::error::AgentError;

verus! {

/// Where and as whom the client subscribes to a signal bus, and which signals
/// it asks for. (How it backs off between reconnects is kept by the
/// surrounding runtime, beside the connection loop.)
#[derive(Debug, Clone)]
pub struct AgentConfig {
    /// Server URL (e.g. `https://tell.example.com`)
    pub server_url: String,
    /// Authentication token
    pub token: String,
    /// Workspace to subscribe to
    pub workspace_id: String,
    /// Optional signal kind filter (e.g. `ip.*`)
    pub kind_filter: Option<String>,
    /// Optional signal source filter (e.g. `transform:jail:*`)
    pub source_filter: Option<String>,
}

/// The message of the configuration error for a configuration, if it has
/// one: the first required field, in the order URL, token, workspace, that
/// is empty.
pub open spec fn config_problem(config: AgentConfig) -> Option<Seq<char>> {
    if config.server_url@.len() == 0 {
        Some("server_url must not be empty"@)
    } else if config.token@.len() == 0 {
        Some("token must not be empty"@)
    } else if config.workspace_id@.len() == 0 {
        Some("workspace_id must not be empty"@)
    } else {
        None
    }
}

/// Validate that required fields are present.
pub fn validate_config(config: &AgentConfig) -> (r: Result<(), AgentError>)
    ensures
        r is Ok <==> config_problem(*config) is None,
        r is Ok <==> (config.server_url@.len() > 0 && config.token@.len() > 0
            && config.workspace_id@.len() > 0),
        r is Err ==> (r matches Err(AgentError::Config(msg)) && Some(msg@) == config_problem(*config)),
{
    if config.server_url.as_str().is_empty() {
        return Err(AgentError::Config(String::from_str("server_url must not be empty")));
    }
    if config.token.as_str().is_empty() {
        return Err(AgentError::Config(String::from_str("token must not be empty")));
    }
    if config.workspace_id.as_str().is_empty() {
        return Err(AgentError::Config(String::from_str("workspace_id must not be empty")));
    }
    Ok(())
}

/// A configuration is accepted exactly when its URL, token and workspace are
/// all non-empty; each empty field, checked in the order URL, token,
/// workspace, is reported by its own message.
pub proof fn lemma_config_problem_fields(config: AgentConfig)
    ensures
        config_problem(config) is None <==> (config.server_url@.len() > 0 && config.token@.len() > 0
            && config.workspace_id@.len() > 0),
        config.server_url@.len() == 0 ==> config_problem(config) == Some(
            "server_url must not be empty"@,
        ),
        config.server_url@.len() > 0 && config.token@.len() == 0 ==> config_problem(config) == Some(
            "token must not be empty"@,
        ),
        config.server_url@.len() > 0 && config.token@.len() > 0 && config.workspace_id@.len() == 0
            ==> config_problem(config) == Some("workspace_id must not be empty"@),
{
}

} // verus!
