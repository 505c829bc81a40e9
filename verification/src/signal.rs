//! Signal values: lightweight notifications of what happened, who reported
//! it, when, and with what detail.

use vstd::prelude::*;

verus! {

/// A JSON value, the free-form detail of a signal.
#[verifier::external_type_specification]
#[verifier::external_body]
pub struct ExJsonValue(serde_json::Value);

/// The system clock's time type.
#[verifier::external_type_specification]
#[verifier::external_body]
pub struct ExSystemTime(std::time::SystemTime);

/// Calls `SystemTime::now`. Nothing is stated of the result, which is the
/// time of the call.
#[verifier::external_body]
fn system_time_now() -> std::time::SystemTime {
    std::time::SystemTime::now()
}

/// Calls `SystemTime::duration_since` with `UNIX_EPOCH`, telling its error
/// (a time before the epoch) apart as `None`. Nothing is stated of the
/// result: both the time and the duration are opaque here.
#[verifier::external_body]
fn duration_since_unix_epoch(t: &std::time::SystemTime) -> Option<std::time::Duration> {
    t.duration_since(std::time::UNIX_EPOCH).ok()
}

/// Calls `Duration::as_millis`. Nothing is stated of the result: the
/// duration is opaque here.
#[verifier::external_body]
fn duration_as_millis(d: &std::time::Duration) -> u128 {
    d.as_millis()
}

/// Milliseconds since the Unix epoch by the system clock, truncated to 64
/// bits; 0 when the clock stands before the epoch.
fn unix_time_millis() -> u64 {
    let now = system_time_now();
    match duration_since_unix_epoch(&now) {
        Some(elapsed) => {
            let millis = duration_as_millis(&elapsed);
            #[verifier::truncate]
            (millis as u64)
        },
        None => 0,
    }
}

/// The JSON `null` value, `serde_json::Value::Null`. The value is opaque
/// here, so no clause states that it is `null`.
#[verifier::external_body]
fn json_null() -> serde_json::Value {
    serde_json::Value::Null
}

/// A typed signal emitted by a pipeline component.
///
/// Signals answer:
/// - **what** happened (`kind` — dot-notation topic)
/// - **who** reported it (`source` — colon-separated producer identity)
/// - **when** it happened (`ts` — unix milliseconds)
/// - **detail** (`payload` — freeform JSON, <4KB)
#[derive(Debug)]
pub struct Signal {
    /// Monotonic signal ID, assigned by the bus on emit.
    /// Used for Last-Event-ID replay on SSE reconnect.
    pub id: u64,
    /// Workspace this signal belongs to
    pub workspace_id: String,
    /// Semantic topic: what happened (e.g. `ip.banned`, `threshold.crossed`)
    pub kind: String,
    /// Producer identity: who reported it (e.g. `transform:jail:sshd`)
    pub source: String,
    /// Unix milliseconds timestamp
    pub ts: u64,
    /// Structured detail (<4KB)
    pub payload: serde_json::Value,
}

impl Signal {
    /// Create a new signal with the current timestamp.
    pub fn new(workspace_id: String, kind: String, source: String) -> (r: Self)
        ensures
            r.id == 0,
            r.workspace_id@ == workspace_id@,
            r.kind@ == kind@,
            r.source@ == source@,
    {
        let now = unix_time_millis();
        Self::new_at(workspace_id, kind, source, now)
    }

    /// Create a new signal stamped with `ts` (unix milliseconds), with id 0
    /// and a `null` payload.
    pub fn new_at(workspace_id: String, kind: String, source: String, ts: u64) -> (r: Self)
        ensures
            r.id == 0,
            r.workspace_id@ == workspace_id@,
            r.kind@ == kind@,
            r.source@ == source@,
            r.ts == ts,
    {
        Signal { id: 0, workspace_id, kind, source, ts, payload: json_null() }
    }

    /// Attach a JSON payload.
    pub fn with_payload(self, payload: serde_json::Value) -> (r: Self)
        ensures
            r == (Signal { payload, ..self }),
    {
        let mut s = self;
        s.payload = payload;
        s
    }
}

} // verus!
