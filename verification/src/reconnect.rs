//! The decisions of the reconnection loop.
//!
//! After each attempt to stream signals, the loop either stops or waits and
//! reconnects; a clean end of the stream resets the backoff delay, and the id
//! of the last event seen is kept to be replayed as `Last-Event-ID`.

use vstd::prelude::*;

use crate::config::AgentConfig;
use crate::error::AgentError;
use crate::request::request_headers_spec;
use crate::sse::SseEventView;
use crate::stream::latest_id_after;

verus! {

/// What the connection loop does after a stream attempt.
#[derive(Debug, Clone, Copy, PartialEq, Eq, Structural)]
pub enum ReconnectStep {
    /// Stop reconnecting: credentials were rejected, or nobody listens.
    Stop,
    /// Wait, then reconnect; with `reset_delay` the wait starts again from
    /// the initial delay.
    Retry { reset_delay: bool },
}

/// The latest event id that a stream attempt reports: the one of a clean
/// end, if it saw one.
pub open spec fn outcome_latest_id(outcome: Result<Option<String>, AgentError>) -> Option<Seq<char>> {
    match outcome {
        Ok(Some(id)) => Some(id@),
        _ => None,
    }
}

/// The id to resume after, once a stream attempt ends: the id the attempt
/// reports, else the one kept from before.
pub open spec fn next_resume_id(last: Option<Seq<char>>, reported: Option<Seq<char>>) -> Option<Seq<char>> {
    match reported {
        Some(id) => Some(id),
        None => last,
    }
}

/// The step after a stream attempt: an authentication failure stops the
/// loop; otherwise it stops when the receiving side is gone, and else it
/// retries, resetting the delay after a clean end.
pub open spec fn next_step_spec(outcome: Result<Option<String>, AgentError>, receiver_closed: bool) -> ReconnectStep {
    match outcome {
        Err(AgentError::AuthFailed { .. }) => ReconnectStep::Stop,
        _ => if receiver_closed {
            ReconnectStep::Stop
        } else {
            ReconnectStep::Retry { reset_delay: outcome is Ok }
        },
    }
}

/// Decides what follows a stream attempt, and records the id to resume
/// after.
pub fn after_stream(
    last_event_id: &mut Option<String>,
    outcome: &Result<Option<String>, AgentError>,
    receiver_closed: bool,
) -> (r: ReconnectStep)
    ensures
        final(last_event_id).deep_view() == next_resume_id(
            old(last_event_id).deep_view(),
            outcome_latest_id(*outcome),
        ),
        r == next_step_spec(*outcome, receiver_closed),
        outcome matches Ok(Some(id)) ==> final(last_event_id).deep_view() == Some(id@),
        !(outcome matches Ok(Some(_))) ==> final(last_event_id).deep_view() == old(
            last_event_id,
        ).deep_view(),
        receiver_closed ==> r == ReconnectStep::Stop,
        outcome is Ok && !receiver_closed ==> r == (ReconnectStep::Retry { reset_delay: true }),
        outcome is Err && !(outcome matches Err(AgentError::AuthFailed { .. })) && !receiver_closed
            ==> r == (ReconnectStep::Retry { reset_delay: false }),
        (outcome matches Err(AgentError::AuthFailed { .. })) ==> r == ReconnectStep::Stop,
{
    match outcome {
        Ok(latest) => {
            match latest {
                Some(id) => {
                    *last_event_id = Some(id.clone());
                },
                None => {},
            }
            if receiver_closed {
                ReconnectStep::Stop
            } else {
                ReconnectStep::Retry { reset_delay: true }
            }
        },
        Err(AgentError::AuthFailed { .. }) => ReconnectStep::Stop,
        Err(_) => {
            if receiver_closed {
                ReconnectStep::Stop
            } else {
                ReconnectStep::Retry { reset_delay: false }
            }
        },
    }
}

/// Replay: when a stream hands out an event that carries an id and then ends
/// cleanly, reporting the reader's latest id, the next subscription request
/// asks the server to resume after that id.
pub proof fn lemma_replay_after_clean_end(
    config: AgentConfig,
    last: Option<Seq<char>>,
    reader_latest: Option<Seq<char>>,
    event: SseEventView,
)
    requires
        event.id is Some,
    ensures
        request_headers_spec(
            config,
            next_resume_id(last, latest_id_after(reader_latest, Some(event))),
        ) == request_headers_spec(config, None).push(("Last-Event-ID"@, event.id->0)),
{
}

/// The id to resume after once the attempts with outcomes `outcomes` have
/// run, in order, starting from none: each attempt applies
/// [`next_resume_id`], as [`after_stream`] does.
pub open spec fn resume_id_after_attempts(outcomes: Seq<Result<Option<String>, AgentError>>) -> Option<Seq<char>>
    decreases outcomes.len(),
{
    if outcomes.len() == 0 {
        None
    } else {
        next_resume_id(resume_id_after_attempts(outcomes.drop_last()), outcome_latest_id(outcomes.last()))
    }
}

/// Replay across any number of attempts: after a run of attempts, the
/// connection resumes after the id reported by the last attempt that ended
/// cleanly with an id; attempts that failed, or ended without an id, change
/// nothing; and with no such attempt there is no id to resume after.
pub proof fn lemma_resume_id_is_last_reported(outcomes: Seq<Result<Option<String>, AgentError>>)
    ensures
        resume_id_after_attempts(outcomes) is None <==> forall|j: int|
            0 <= j < outcomes.len() ==> outcome_latest_id(#[trigger] outcomes[j]) is None,
        resume_id_after_attempts(outcomes) is Some ==> exists|j: int|
            0 <= j < outcomes.len() && outcome_latest_id(#[trigger] outcomes[j])
                == resume_id_after_attempts(outcomes) && forall|k: int|
                j < k < outcomes.len() ==> outcome_latest_id(#[trigger] outcomes[k]) is None,
    decreases outcomes.len(),
{
    if outcomes.len() > 0 {
        let init = outcomes.drop_last();
        let n = outcomes.len() - 1;
        lemma_resume_id_is_last_reported(init);
        assert forall|j: int| 0 <= j < init.len() implies init[j] == outcomes[j] by {}
        if outcome_latest_id(outcomes.last()) is Some {
            assert(outcome_latest_id(outcomes[n]) == resume_id_after_attempts(outcomes));
        } else if resume_id_after_attempts(init) is Some {
            let j = choose|j: int|
                0 <= j < init.len() && outcome_latest_id(#[trigger] init[j])
                    == resume_id_after_attempts(init) && forall|k: int|
                    j < k < init.len() ==> outcome_latest_id(#[trigger] init[k]) is None;
            assert(outcome_latest_id(outcomes[j]) == resume_id_after_attempts(outcomes));
            assert forall|k: int| j < k < outcomes.len() implies outcome_latest_id(
                #[trigger] outcomes[k],
            ) is None by {
                if k < n {
                    assert(outcomes[k] == init[k]);
                }
            }
        } else {
            assert forall|j: int| 0 <= j < outcomes.len() implies outcome_latest_id(
                #[trigger] outcomes[j],
            ) is None by {
                if j < n {
                    assert(outcomes[j] == init[j]);
                }
            }
        }
    }
}

/// A failed attempt never loses the id to resume after: the next request
/// carries the same `Last-Event-ID` as the one before.
pub proof fn lemma_failure_keeps_resume_id(
    config: AgentConfig,
    last: Option<Seq<char>>,
    error: AgentError,
)
    ensures
        next_resume_id(last, outcome_latest_id(Err(error))) == last,
        request_headers_spec(config, next_resume_id(last, outcome_latest_id(Err(error))))
            == request_headers_spec(config, last),
{
}

/// Backoff: with the receiver open, a clean end (with or without an id)
/// retries from the initial delay, and every failure other than rejected
/// credentials (a transport error, a server error, a configuration error)
/// retries without resetting the delay, so the delay keeps growing.
pub proof fn lemma_backoff_resets_only_on_clean_end(latest: Option<String>, error: AgentError)
    ensures
        next_step_spec(Ok(latest), false) == (ReconnectStep::Retry { reset_delay: true }),
        !(error matches AgentError::AuthFailed { .. }) ==> next_step_spec(Err(error), false) == (
        ReconnectStep::Retry { reset_delay: false }),
        error matches AgentError::AuthFailed { .. } ==> next_step_spec(Err(error), false)
            == ReconnectStep::Stop,
        next_step_spec(Ok(latest), true) == ReconnectStep::Stop,
        next_step_spec(Err(error), true) == ReconnectStep::Stop,
{
}

/// Rejected credentials end the loop, whatever else holds.
pub proof fn lemma_auth_failure_stops(status: u16, receiver_closed: bool)
    ensures
        next_step_spec(Err(AgentError::AuthFailed { status }), receiver_closed) == ReconnectStep::Stop,
{
}

} // verus!
