//! Data model of the orchestrator: run lifecycle states, workflow
//! references, timing, events, artifacts and the error envelope.
//!
//! Each struct that owns strings or documents has a ghost view struct, and
//! a `duplicate` method that produces a value with the same view; contracts
//! elsewhere are stated over these views.

use vstd::prelude::*;

use crate::json::{Json, JsonValue};

verus! {

/// Lifecycle state of a run. `Queued` is the only initial state and
/// `Succeeded` / `Failed` are the only terminal states the engine
/// produces; `WaitingHuman`, `Canceled` and `TimedOut` are reserved
/// values with no transition into them.
#[derive(Clone, Copy, Debug, PartialEq, Eq, Structural)]
pub enum RunStatus {
    Queued,
    Running,
    WaitingHuman,
    Succeeded,
    Failed,
    Canceled,
    TimedOut,
}

/// Whether a status is one of the two reachable terminal states.
pub open spec fn is_terminal(status: RunStatus) -> bool {
    status == RunStatus::Succeeded || status == RunStatus::Failed
}

impl RunStatus {
    pub fn terminal(&self) -> (r: bool)
        ensures
            r == is_terminal(*self),
    {
        match self {
            RunStatus::Succeeded | RunStatus::Failed => true,
            _ => false,
        }
    }
}

/// The kind of an artifact payload.
#[derive(Clone, Copy, Debug, PartialEq, Eq, Structural)]
pub enum ArtifactType {
    Message,
    Record,
    File,
}

/// The fixed set of event types a run can emit.
#[derive(Clone, Copy, Debug, PartialEq, Eq, Structural)]
pub enum EventType {
    RunStarted,
    RunCompleted,
    RunFailed,
    StepStarted,
    StepCompleted,
    StepFailed,
    ArtifactCreated,
}

/// The wire name of an event type, as used on the event stream.
pub open spec fn event_type_str(t: EventType) -> Seq<char> {
    match t {
        EventType::RunStarted => "run.started"@,
        EventType::RunCompleted => "run.completed"@,
        EventType::RunFailed => "run.failed"@,
        EventType::StepStarted => "step.started"@,
        EventType::StepCompleted => "step.completed"@,
        EventType::StepFailed => "step.failed"@,
        EventType::ArtifactCreated => "artifact.created"@,
    }
}

/// The wire name of an event type as a fresh string.
pub fn event_type_name(t: &EventType) -> (r: String)
    ensures
        r@ == event_type_str(*t),
{
    match t {
        EventType::RunStarted => String::from_str("run.started"),
        EventType::RunCompleted => String::from_str("run.completed"),
        EventType::RunFailed => String::from_str("run.failed"),
        EventType::StepStarted => String::from_str("step.started"),
        EventType::StepCompleted => String::from_str("step.completed"),
        EventType::StepFailed => String::from_str("step.failed"),
        EventType::ArtifactCreated => String::from_str("artifact.created"),
    }
}

/// An error classification a workflow capability reports on failure: the
/// flag is advisory metadata forwarded verbatim to external callers.
#[derive(Debug)]
pub enum AgentError {
    Retryable(String),
    Fatal(String),
}

pub ghost enum AgentErrorV {
    Retryable(Seq<char>),
    Fatal(Seq<char>),
}

impl View for AgentError {
    type V = AgentErrorV;

    open spec fn view(&self) -> AgentErrorV {
        match self {
            AgentError::Retryable(m) => AgentErrorV::Retryable(m@),
            AgentError::Fatal(m) => AgentErrorV::Fatal(m@),
        }
    }
}

/// The message of an agent error, in the form `retryable: ...` or
/// `fatal: ...`.
pub open spec fn agent_error_message(e: AgentErrorV) -> Seq<char> {
    match e {
        AgentErrorV::Retryable(m) => "retryable: "@ + m,
        AgentErrorV::Fatal(m) => "fatal: "@ + m,
    }
}

/// Whether the error is tagged as retryable.
pub open spec fn agent_error_retryable(e: AgentErrorV) -> bool {
    e is Retryable
}

impl AgentError {
    /// Renders the error as its message string.
    pub fn message(&self) -> (r: String)
        ensures
            r@ == agent_error_message(self@),
    {
        match self {
            AgentError::Retryable(m) => {
                let mut s = String::from_str("retryable: ");
                s.append(m.as_str());
                s
            },
            AgentError::Fatal(m) => {
                let mut s = String::from_str("fatal: ");
                s.append(m.as_str());
                s
            },
        }
    }

    pub fn retryable(&self) -> (r: bool)
        ensures
            r == agent_error_retryable(self@),
    {
        match self {
            AgentError::Retryable(_) => true,
            AgentError::Fatal(_) => false,
        }
    }
}

/// Name and optional version of a workflow.
#[derive(Debug)]
pub struct WorkflowRef {
    pub name: String,
    pub version: Option<String>,
}

pub ghost struct WorkflowRefV {
    pub name: Seq<char>,
    pub version: Option<Seq<char>>,
}

impl View for WorkflowRef {
    type V = WorkflowRefV;

    open spec fn view(&self) -> WorkflowRefV {
        WorkflowRefV { name: self.name@, version: view_opt_string(self.version) }
    }
}

impl WorkflowRef {
    pub fn duplicate(&self) -> (r: WorkflowRef)
        ensures
            r@ == self@,
    {
        WorkflowRef { name: self.name.clone(), version: dup_opt_string(&self.version) }
    }
}

/// The view of an optional owned string.
pub open spec fn view_opt_string(o: Option<String>) -> Option<Seq<char>> {
    match o {
        Option::Some(s) => Option::Some(s@),
        Option::None => Option::None,
    }
}

/// The view of an optional document.
pub open spec fn view_opt_json(o: Option<JsonValue>) -> Option<Json> {
    match o {
        Option::Some(v) => Option::Some(v@),
        Option::None => Option::None,
    }
}

pub fn dup_opt_string(o: &Option<String>) -> (r: Option<String>)
    ensures
        view_opt_string(r) == view_opt_string(*o),
{
    match o {
        Option::Some(s) => Option::Some(s.clone()),
        Option::None => Option::None,
    }
}

/// An optional string as a JSON value: the string, or null.
pub open spec fn json_opt_string(o: Option<Seq<char>>) -> Json {
    match o {
        Option::Some(s) => Json::Str(s),
        Option::None => Json::Null,
    }
}

/// Renders an optional string as a JSON value, the way absent fields are
/// serialized: the string itself, or null.
pub fn json_of_opt_string(o: &Option<String>) -> (r: JsonValue)
    ensures
        r@ == json_opt_string(view_opt_string(*o)),
{
    match o {
        Option::Some(s) => JsonValue::Str(s.clone()),
        Option::None => JsonValue::Null,
    }
}

pub fn dup_opt_json(o: &Option<JsonValue>) -> (r: Option<JsonValue>)
    ensures
        view_opt_json(r) == view_opt_json(*o),
{
    match o {
        Option::Some(v) => Option::Some(v.duplicate()),
        Option::None => Option::None,
    }
}

/// Timestamps of a run, in milliseconds since the Unix epoch.
#[derive(Clone, Copy, Debug)]
pub struct Timing {
    pub created_at: i64,
    pub started_at: Option<i64>,
    pub finished_at: Option<i64>,
    pub wall_ms: Option<i64>,
}

/// The invariant of a run's timing: creation precedes start precedes
/// finish where recorded, and the wall time is the distance between
/// start and finish, recorded exactly at the terminal transition.
pub open spec fn timing_wf(t: Timing) -> bool {
    &&& match t.started_at {
        Option::Some(s) => t.created_at <= s,
        Option::None => true,
    }
    &&& match (t.started_at, t.finished_at) {
        (Option::Some(s), Option::Some(f)) => s <= f,
        (_, Option::None) => true,
        (Option::None, Option::Some(_)) => false,
    }
    &&& match (t.started_at, t.finished_at, t.wall_ms) {
        (Option::Some(s), Option::Some(f), Option::Some(w)) => w == f - s,
        (_, _, Option::None) => true,
        _ => false,
    }
    &&& t.finished_at is Some <==> t.wall_ms is Some
}

/// The error envelope surfaced to external callers.
#[derive(Debug)]
pub struct ErrorResponse {
    pub code: String,
    pub message: String,
    pub retryable: bool,
    pub details: Option<JsonValue>,
}

pub ghost struct ErrorResponseV {
    pub code: Seq<char>,
    pub message: Seq<char>,
    pub retryable: bool,
    pub details: Option<Json>,
}

impl View for ErrorResponse {
    type V = ErrorResponseV;

    open spec fn view(&self) -> ErrorResponseV {
        ErrorResponseV {
            code: self.code@,
            message: self.message@,
            retryable: self.retryable,
            details: view_opt_json(self.details),
        }
    }
}

impl ErrorResponse {
    pub fn duplicate(&self) -> (r: ErrorResponse)
        ensures
            r@ == self@,
    {
        ErrorResponse {
            code: self.code.clone(),
            message: self.message.clone(),
            retryable: self.retryable,
            details: dup_opt_json(&self.details),
        }
    }
}

/// A reference from a run to a stored artifact.
#[derive(Debug)]
pub struct ArtifactRef {
    pub artifact_id: String,
    pub artifact_type: ArtifactType,
    pub name: Option<String>,
}

pub ghost struct ArtifactRefV {
    pub artifact_id: Seq<char>,
    pub artifact_type: ArtifactType,
    pub name: Option<Seq<char>>,
}

impl View for ArtifactRef {
    type V = ArtifactRefV;

    open spec fn view(&self) -> ArtifactRefV {
        ArtifactRefV {
            artifact_id: self.artifact_id@,
            artifact_type: self.artifact_type,
            name: view_opt_string(self.name),
        }
    }
}

impl ArtifactRef {
    pub fn duplicate(&self) -> (r: ArtifactRef)
        ensures
            r@ == self@,
    {
        ArtifactRef {
            artifact_id: self.artifact_id.clone(),
            artifact_type: self.artifact_type,
            name: dup_opt_string(&self.name),
        }
    }
}

/// A file payload attached to an artifact.
#[derive(Debug)]
pub struct ArtifactFile {
    pub download_url: String,
    pub expires_at: Option<i64>,
    pub size_bytes: Option<i64>,
    pub sha256: Option<String>,
}

pub ghost struct ArtifactFileV {
    pub download_url: Seq<char>,
    pub expires_at: Option<i64>,
    pub size_bytes: Option<i64>,
    pub sha256: Option<Seq<char>>,
}

impl View for ArtifactFile {
    type V = ArtifactFileV;

    open spec fn view(&self) -> ArtifactFileV {
        ArtifactFileV {
            download_url: self.download_url@,
            expires_at: self.expires_at,
            size_bytes: self.size_bytes,
            sha256: view_opt_string(self.sha256),
        }
    }
}

/// A write-once byproduct of a successful run.
#[derive(Debug)]
pub struct Artifact {
    pub artifact_id: String,
    pub artifact_type: ArtifactType,
    pub name: Option<String>,
    pub created_at: i64,
    pub mime_type: Option<String>,
    pub data: Option<JsonValue>,
    pub file: Option<ArtifactFile>,
}

pub ghost struct ArtifactV {
    pub artifact_id: Seq<char>,
    pub artifact_type: ArtifactType,
    pub name: Option<Seq<char>>,
    pub created_at: i64,
    pub mime_type: Option<Seq<char>>,
    pub data: Option<Json>,
    pub file: Option<ArtifactFileV>,
}

impl View for Artifact {
    type V = ArtifactV;

    open spec fn view(&self) -> ArtifactV {
        ArtifactV {
            artifact_id: self.artifact_id@,
            artifact_type: self.artifact_type,
            name: view_opt_string(self.name),
            created_at: self.created_at,
            mime_type: view_opt_string(self.mime_type),
            data: view_opt_json(self.data),
            file: match self.file {
                Option::Some(f) => Option::Some(f@),
                Option::None => Option::None,
            },
        }
    }
}

/// The reference an artifact contributes to its run's record.
pub open spec fn ref_of_artifact(a: ArtifactV) -> ArtifactRefV {
    ArtifactRefV { artifact_id: a.artifact_id, artifact_type: a.artifact_type, name: a.name }
}

impl Artifact {
    /// A fresh deep copy with the same view.
    pub fn duplicate(&self) -> (r: Artifact)
        ensures
            r@ == self@,
    {
        Artifact {
            artifact_id: self.artifact_id.clone(),
            artifact_type: self.artifact_type,
            name: dup_opt_string(&self.name),
            created_at: self.created_at,
            mime_type: dup_opt_string(&self.mime_type),
            data: dup_opt_json(&self.data),
            file: match &self.file {
                Option::Some(f) => Option::Some(
                    ArtifactFile {
                        download_url: f.download_url.clone(),
                        expires_at: f.expires_at,
                        size_bytes: f.size_bytes,
                        sha256: dup_opt_string(&f.sha256),
                    },
                ),
                Option::None => Option::None,
            },
        }
    }

    /// The reference for this artifact.
    pub fn to_ref(&self) -> (r: ArtifactRef)
        ensures
            r@ == ref_of_artifact(self@),
    {
        ArtifactRef {
            artifact_id: self.artifact_id.clone(),
            artifact_type: self.artifact_type,
            name: dup_opt_string(&self.name),
        }
    }
}

/// Workflow detail as surfaced on the listing endpoints.
#[derive(Debug)]
pub struct Workflow {
    pub name: String,
    pub version: Option<String>,
    pub description: Option<String>,
    pub tags: Vec<String>,
    pub input_schema_ref: Option<String>,
    pub output_schema_ref: Option<String>,
}

/// Workflow summary row of a listing.
#[derive(Debug)]
pub struct WorkflowSummary {
    pub name: String,
    pub version: Option<String>,
    pub description: Option<String>,
    pub tags: Vec<String>,
}

/// A page of workflow summaries.
#[derive(Debug)]
pub struct WorkflowListResponse {
    pub data: Vec<WorkflowSummary>,
    pub next_cursor: Option<String>,
}

/// A submission: which workflow to run and with what input.
#[derive(Debug)]
pub struct RunCreateRequest {
    pub workflow: WorkflowRef,
    pub input: JsonValue,
    pub context: Option<JsonValue>,
    pub metadata: Option<JsonValue>,
    pub labels: Option<Vec<(String, String)>>,
}

/// The registered schemas of a workflow with their fingerprint.
#[derive(Debug)]
pub struct SchemaBundle {
    pub workflow: WorkflowRef,
    pub schema_hash: String,
    pub schemas: Vec<(String, JsonValue)>,
}

/// One entry of a run's ordered event history.
#[derive(Debug)]
pub struct Event {
    pub event_id: String,
    pub ts: i64,
    pub event_type: EventType,
    pub run_id: String,
    pub step_id: Option<String>,
    pub tool_name: Option<String>,
    pub payload: JsonValue,
}

pub ghost struct EventV {
    pub event_id: Seq<char>,
    pub ts: i64,
    pub event_type: EventType,
    pub run_id: Seq<char>,
    pub step_id: Option<Seq<char>>,
    pub tool_name: Option<Seq<char>>,
    pub payload: Json,
}

impl View for Event {
    type V = EventV;

    open spec fn view(&self) -> EventV {
        EventV {
            event_id: self.event_id@,
            ts: self.ts,
            event_type: self.event_type,
            run_id: self.run_id@,
            step_id: view_opt_string(self.step_id),
            tool_name: view_opt_string(self.tool_name),
            payload: self.payload@,
        }
    }
}

impl Event {
    pub fn duplicate(&self) -> (r: Event)
        ensures
            r@ == self@,
    {
        Event {
            event_id: self.event_id.clone(),
            ts: self.ts,
            event_type: self.event_type,
            run_id: self.run_id.clone(),
            step_id: dup_opt_string(&self.step_id),
            tool_name: dup_opt_string(&self.tool_name),
            payload: self.payload.duplicate(),
        }
    }
}

/// The views of a list of events, element for element.
pub open spec fn view_events(s: Seq<Event>) -> Seq<EventV>
    decreases s,
{
    if s.len() == 0 {
        Seq::empty()
    } else {
        view_events(s.drop_last()).push(s.last()@)
    }
}

pub broadcast proof fn lemma_view_events(s: Seq<Event>)
    ensures
        (#[trigger] view_events(s)).len() == s.len(),
        forall|i: int| 0 <= i < s.len() ==> view_events(s)[i] == (#[trigger] s[i])@,
    decreases s.len(),
{
    if s.len() > 0 {
        lemma_view_events(s.drop_last());
        assert forall|i: int| 0 <= i < s.len() implies view_events(s)[i] == (#[trigger] s[i])@ by {
            if i < s.len() - 1 {
                assert(view_events(s.drop_last())[i] == s.drop_last()[i]@);
                assert(s.drop_last()[i] == s[i]);
            } else {
                assert(view_events(s)[i] == s.last()@);
            }
        }
    }
}

/// `view_events` distributes over push.
pub broadcast proof fn lemma_view_events_push(s: Seq<Event>, e: Event)
    ensures
        #[trigger] view_events(s.push(e)) == view_events(s).push(e@),
{
    assert(s.push(e).drop_last() =~= s);
    assert(s.push(e).last() == e);
}

/// The record of one workflow invocation.
#[derive(Debug)]
pub struct Run {
    pub run_id: String,
    pub workflow: WorkflowRef,
    pub status: RunStatus,
    pub trace_id: Option<String>,
    pub tenant_id: Option<String>,
    pub timing: Timing,
    pub input: Option<JsonValue>,
    pub context: Option<JsonValue>,
    pub output: Option<JsonValue>,
    pub error: Option<ErrorResponse>,
    pub artifacts: Vec<ArtifactRef>,
}

pub ghost struct RunV {
    pub run_id: Seq<char>,
    pub workflow: WorkflowRefV,
    pub status: RunStatus,
    pub trace_id: Option<Seq<char>>,
    pub tenant_id: Option<Seq<char>>,
    pub timing: Timing,
    pub input: Option<Json>,
    pub context: Option<Json>,
    pub output: Option<Json>,
    pub error: Option<ErrorResponseV>,
    pub artifacts: Seq<ArtifactRefV>,
}

/// The views of a list of artifact references, element for element.
pub open spec fn view_refs(s: Seq<ArtifactRef>) -> Seq<ArtifactRefV>
    decreases s,
{
    if s.len() == 0 {
        Seq::empty()
    } else {
        view_refs(s.drop_last()).push(s.last()@)
    }
}

pub broadcast proof fn lemma_view_refs(s: Seq<ArtifactRef>)
    ensures
        (#[trigger] view_refs(s)).len() == s.len(),
        forall|i: int| 0 <= i < s.len() ==> view_refs(s)[i] == (#[trigger] s[i])@,
    decreases s.len(),
{
    if s.len() > 0 {
        lemma_view_refs(s.drop_last());
        assert forall|i: int| 0 <= i < s.len() implies view_refs(s)[i] == (#[trigger] s[i])@ by {
            if i < s.len() - 1 {
                assert(view_refs(s.drop_last())[i] == s.drop_last()[i]@);
                assert(s.drop_last()[i] == s[i]);
            } else {
                assert(view_refs(s)[i] == s.last()@);
            }
        }
    }
}

impl View for Run {
    type V = RunV;

    open spec fn view(&self) -> RunV {
        RunV {
            run_id: self.run_id@,
            workflow: self.workflow@,
            status: self.status,
            trace_id: view_opt_string(self.trace_id),
            tenant_id: view_opt_string(self.tenant_id),
            timing: self.timing,
            input: view_opt_json(self.input),
            context: view_opt_json(self.context),
            output: view_opt_json(self.output),
            error: match self.error {
                Option::Some(e) => Option::Some(e@),
                Option::None => Option::None,
            },
            artifacts: view_refs(self.artifacts@),
        }
    }
}

impl Run {
    /// A fresh deep copy with the same view, used for snapshots handed
    /// out of the store.
    #[verifier::loop_isolation(false)]
    pub fn duplicate(&self) -> (r: Run)
        ensures
            r@ == self@,
    {
        broadcast use lemma_view_refs;

        let n = self.artifacts.len();
        let mut refs: Vec<ArtifactRef> = Vec::new();
        let mut i: usize = 0;
        while i < n
            invariant
                n == self.artifacts@.len(),
                i <= n,
                refs@.len() == i,
                forall|j: int| 0 <= j < i ==> (#[trigger] refs@[j])@ == self.artifacts@[j]@,
            decreases n - i,
        {
            let copied = self.artifacts[i].duplicate();
            refs.push(copied);
            i = i + 1;
        }
        proof {
            assert forall|j: int| 0 <= j < n implies view_refs(refs@)[j] == view_refs(
                self.artifacts@,
            )[j] by {
                assert(view_refs(refs@)[j] == refs@[j]@);
                assert(view_refs(self.artifacts@)[j] == self.artifacts@[j]@);
            }
            assert(view_refs(refs@) =~= view_refs(self.artifacts@));
        }
        Run {
            run_id: self.run_id.clone(),
            workflow: self.workflow.duplicate(),
            status: self.status,
            trace_id: dup_opt_string(&self.trace_id),
            tenant_id: dup_opt_string(&self.tenant_id),
            timing: self.timing,
            input: dup_opt_json(&self.input),
            context: dup_opt_json(&self.context),
            output: dup_opt_json(&self.output),
            error: match &self.error {
                Option::Some(e) => Option::Some(e.duplicate()),
                Option::None => Option::None,
            },
            artifacts: refs,
        }
    }
}

} // verus!
