//! The in-memory orchestrator: workflow registry, run store with its
//! lifecycle state machine, per-run event log with bounded subscriber
//! channels, and the write-once artifact store.
//!
//! All state lives behind one value; callers that need concurrent access
//! wrap it in a lock and call into it from their tasks. Each operation is
//! a single critical section. The detached part of an execution — invoking
//! the workflow capability itself — happens outside, between `begin_run`
//! and one of the `finish_run_*` calls, which together perform the
//! transitions and event emissions of one run in order.

use vstd::prelude::*;

use crate::json::{str_eq, Json, JsonValue};
use crate::outside::{now_ms, uuid_string};
use crate::schema_hash::{schema_hash, schema_hash_chars};
use crate::text::{dec_digits, is_digit_char, lemma_dec_digits_are_digits, u64_to_string};
use crate::types::{
    view_opt_json, view_opt_string, Artifact, ErrorResponse, Event, EventType, Run, RunCreateRequest,
    RunStatus, SchemaBundle, Timing, Workflow, WorkflowRef, WorkflowSummary,
};

verus! {

/// Capacity of each subscriber's live channel: when a subscriber lags
/// more than this many events behind the log, the oldest events beyond
/// the window are dropped for that subscriber only.
pub const CHANNEL_CAPACITY: usize = 100;

/// One registered workflow: identity, schemas. The executable capability
/// itself is dispatched by name outside the store.
pub struct WorkflowEntry {
    pub name: String,
    pub version: Option<String>,
    pub input_schema: Option<JsonValue>,
    pub output_schema: Option<JsonValue>,
}

/// A live subscription to one run's event channel: the position in the
/// log from which this subscriber has yet to read.
#[derive(Clone, Copy)]
pub struct Subscriber {
    pub sub_id: u64,
    pub next: usize,
}

/// A run together with its event log and its subscribers.
pub struct RunRecord {
    pub run: Run,
    pub events: Vec<Event>,
    pub subscribers: Vec<Subscriber>,
}

/// The orchestrator state.
pub struct InMemoryRuntime {
    pub workflows: Vec<WorkflowEntry>,
    pub runs: Vec<RunRecord>,
    pub artifacts: Vec<Artifact>,
    pub next_sub_id: u64,
}

/// The run identifier the store falls back to when a drawn identifier
/// collides: `run_` followed by the decimal run count.
pub open spec fn run_counter_id(k: nat) -> Seq<char> {
    "run_"@ + dec_digits(k)
}

/// Status-dependent shape of a run record: which of the optional fields
/// are set in each lifecycle state, and that the timing is consistent.
pub open spec fn run_wf(r: crate::types::RunV) -> bool {
    &&& crate::types::timing_wf(r.timing)
    &&& r.timing.created_at >= 0
    &&& match r.status {
        RunStatus::Queued => {
            &&& r.timing.started_at is None
            &&& r.timing.finished_at is None
            &&& r.output is None
            &&& r.error is None
            &&& r.artifacts.len() == 0
        },
        RunStatus::Running => {
            &&& r.timing.started_at is Some
            &&& r.timing.finished_at is None
            &&& r.output is None
            &&& r.error is None
            &&& r.artifacts.len() == 0
        },
        RunStatus::Succeeded => {
            &&& r.timing.started_at is Some
            &&& r.timing.finished_at is Some
            &&& r.output is Some
            &&& r.error is None
        },
        RunStatus::Failed => {
            &&& r.timing.started_at is Some
            &&& r.timing.finished_at is Some
            &&& r.output is None
            &&& r.error is Some
        },
        _ => false,
    }
}

/// Well-formedness of one run record.
pub open spec fn record_wf(rec: RunRecord, next_sub_id: u64) -> bool {
    &&& run_wf(rec.run@)
    &&& forall|i: int|
        0 <= i < rec.subscribers@.len() ==> (#[trigger] rec.subscribers@[i]).next
            <= rec.events@.len()
    &&& forall|i: int|
        0 <= i < rec.subscribers@.len() ==> (#[trigger] rec.subscribers@[i]).sub_id < next_sub_id
    &&& forall|i: int, j: int|
        0 <= i < j < rec.subscribers@.len() ==> rec.subscribers@[i].sub_id
            != rec.subscribers@[j].sub_id
}

/// What a successful finish leaves behind for the run at index `i`:
/// the artifacts stored in production order, the exact event extension,
/// and the terminal `Succeeded` record.
pub open spec fn finish_success_post(
    pre: InMemoryRuntime,
    post: InMemoryRuntime,
    i: int,
    run_id: Seq<char>,
    output: Json,
    artifacts: Seq<Artifact>,
) -> bool {
    let oldv = pre.runs@[i].run@;
    let newv = post.runs@[i].run@;
    let oldlog = pre.runs@[i].events@;
    let newlog = post.runs@[i].events@;
    let n = artifacts.len() as int;
    let alen = pre.artifacts@.len() as int;
    &&& 0 <= i < pre.runs@.len()
    &&& pre.runs@[i].run.run_id@ == run_id
    &&& oldv.status == RunStatus::Running
    &&& newv.status == RunStatus::Succeeded
    &&& newv.run_id == oldv.run_id
    &&& newv.workflow == oldv.workflow
    &&& newv.input == oldv.input
    &&& newv.context == oldv.context
    &&& newv.trace_id == oldv.trace_id
    &&& newv.tenant_id == oldv.tenant_id
    &&& newv.output == Option::Some(output)
    &&& newv.error is None
    &&& newv.artifacts.len() == n
    &&& forall|t: int|
        0 <= t < n ==> newv.artifacts[t] == crate::types::ref_of_artifact(
            (#[trigger] artifacts[t])@,
        )
    &&& newv.timing.created_at == oldv.timing.created_at
    &&& newv.timing.started_at == oldv.timing.started_at
    &&& match (newv.timing.started_at, newv.timing.finished_at, newv.timing.wall_ms) {
        (Option::Some(st), Option::Some(f), Option::Some(w)) => f >= st && w == f - st,
        _ => false,
    }
    &&& post.artifacts@.len() == alen + n
    &&& forall|t: int| 0 <= t < alen ==> #[trigger] post.artifacts@[t] == pre.artifacts@[t]
    &&& forall|t: int| 0 <= t < n ==> (#[trigger] post.artifacts@[alen + t])@ == artifacts[t]@
    &&& newlog.len() == oldlog.len() + n + 2
    &&& forall|j: int| 0 <= j < oldlog.len() ==> #[trigger] newlog[j] == oldlog[j]
    &&& forall|t: int|
        0 <= t < n ==> is_artifact_created(
            (#[trigger] newlog[oldlog.len() + t])@,
            run_id,
            artifacts[t].artifact_id@,
        )
    &&& is_step_completed(newlog[oldlog.len() + n]@, run_id)
    &&& is_run_completed(newlog[oldlog.len() + n + 1]@, run_id)
    &&& post.runs@[i].subscribers == pre.runs@[i].subscribers
    &&& forall|j: int|
        0 <= j < pre.runs@.len() && j != i ==> #[trigger] post.runs@[j] == pre.runs@[j]
}

impl InMemoryRuntime {
    /// The structural invariant of the whole store: workflow names are
    /// unique, run identifiers are unique, counter-form run identifiers
    /// stay below the run count, and each record is well formed.
    pub open spec fn wf(self) -> bool {
        &&& forall|i: int, j: int|
            0 <= i < j < self.workflows@.len() ==> self.workflows@[i].name@
                != self.workflows@[j].name@
        &&& forall|i: int, j: int|
            0 <= i < j < self.runs@.len() ==> self.runs@[i].run.run_id@
                != self.runs@[j].run.run_id@
        &&& forall|i: int, k: int|
            #![trigger self.runs@[i].run.run_id@, run_counter_id(k as nat)]
            0 <= i < self.runs@.len() && 0 <= k && self.runs@[i].run.run_id@ == run_counter_id(
                k as nat,
            ) ==> k < self.runs@.len()
        &&& forall|i: int|
            0 <= i < self.runs@.len() ==> record_wf(#[trigger] self.runs@[i], self.next_sub_id)
    }

    /// Whether a workflow with the given name is registered.
    pub open spec fn has_workflow(self, name: Seq<char>) -> bool {
        exists|i: int| 0 <= i < self.workflows@.len() && (#[trigger] self.workflows@[i]).name@ == name
    }

    /// Whether a run with the given identifier exists.
    pub open spec fn has_run(self, run_id: Seq<char>) -> bool {
        exists|i: int| 0 <= i < self.runs@.len() && (#[trigger] self.runs@[i]).run.run_id@ == run_id
    }

    /// An empty orchestrator.
    pub fn new() -> (r: InMemoryRuntime)
        ensures
            r.wf(),
            r.workflows@.len() == 0,
            r.runs@.len() == 0,
            r.artifacts@.len() == 0,
    {
        InMemoryRuntime {
            workflows: Vec::new(),
            runs: Vec::new(),
            artifacts: Vec::new(),
            next_sub_id: 0,
        }
    }

    /// Index of the workflow with the given name, by linear scan.
    #[verifier::loop_isolation(false)]
    fn find_workflow(&self, name: &str) -> (r: Option<usize>)
        ensures
            match r {
                Option::Some(i) => i < self.workflows@.len() && self.workflows@[i as int].name@
                    == name@,
                Option::None => !self.has_workflow(name@),
            },
    {
        let n = self.workflows.len();
        let mut i: usize = 0;
        while i < n
            invariant
                n == self.workflows@.len(),
                i <= n,
                forall|j: int| 0 <= j < i ==> (#[trigger] self.workflows@[j]).name@ != name@,
            decreases n - i,
        {
            if str_eq(self.workflows[i].name.as_str(), name) {
                return Option::Some(i);
            }
            i = i + 1;
        }
        Option::None
    }

    /// Index of the run with the given identifier, by linear scan.
    #[verifier::loop_isolation(false)]
    fn find_run(&self, run_id: &str) -> (r: Option<usize>)
        ensures
            match r {
                Option::Some(i) => i < self.runs@.len() && self.runs@[i as int].run.run_id@
                    == run_id@,
                Option::None => !self.has_run(run_id@),
            },
    {
        let n = self.runs.len();
        let mut i: usize = 0;
        while i < n
            invariant
                n == self.runs@.len(),
                i <= n,
                forall|j: int| 0 <= j < i ==> (#[trigger] self.runs@[j]).run.run_id@ != run_id@,
            decreases n - i,
        {
            if str_eq(self.runs[i].run.run_id.as_str(), run_id) {
                return Option::Some(i);
            }
            i = i + 1;
        }
        Option::None
    }

    /// Registers a workflow under its name, overwriting any prior entry
    /// with the same name; never fails.
    #[verifier::loop_isolation(false)]
    pub fn register_workflow_with_schemas(
        &mut self,
        name: String,
        version: Option<String>,
        input_schema: Option<JsonValue>,
        output_schema: Option<JsonValue>,
    )
        requires
            old(self).wf(),
        ensures
            final(self).wf(),
            final(self).runs@ == old(self).runs@,
            final(self).artifacts@ == old(self).artifacts@,
            final(self).next_sub_id == old(self).next_sub_id,
            final(self).has_workflow(name@),
            // the entry under this name now carries exactly what was given
            forall|i: int|
                0 <= i < final(self).workflows@.len() && (#[trigger] final(self).workflows@[i]).name@ == name@ ==> {
                    &&& view_opt_string(final(self).workflows@[i].version) == view_opt_string(
                        version,
                    )
                    &&& view_opt_json(final(self).workflows@[i].input_schema) == view_opt_json(
                        input_schema,
                    )
                    &&& view_opt_json(final(self).workflows@[i].output_schema) == view_opt_json(
                        output_schema,
                    )
                },
            // entries under other names are untouched
            forall|n2: Seq<char>|
                n2 != name@ ==> ((#[trigger] final(self).has_workflow(n2)) == old(self).has_workflow(n2)),
            forall|i: int|
                0 <= i < old(self).workflows@.len() && (#[trigger] old(self).workflows@[i]).name@
                    != name@ ==> exists|j: int|
                    0 <= j < final(self).workflows@.len() && final(self).workflows@[j] == old(self).workflows@[i],
    {
        let ghost given_name: Seq<char> = name@;
        let entry = WorkflowEntry { name, version, input_schema, output_schema };
        match self.find_workflow(entry.name.as_str()) {
            Option::Some(i) => {
                proof {
                    assert(old(self).workflows@[i as int].name@ == given_name);
                }
                self.workflows.set(i, entry);
                proof {
                    assert(self.workflows@[i as int].name@ == given_name);
                    assert(self.has_workflow(given_name));
                    assert forall|n2: Seq<char>| n2 != given_name implies ((
                    #[trigger] self.has_workflow(n2)) == old(self).has_workflow(n2)) by {
                        if old(self).has_workflow(n2) {
                            let w = choose|w: int|
                                0 <= w < old(self).workflows@.len() && (#[trigger] old(self).workflows@[w]).name@ == n2;
                            assert(self.workflows@[w].name@ == n2);
                        }
                        if self.has_workflow(n2) {
                            let w = choose|w: int|
                                0 <= w < self.workflows@.len() && (#[trigger] self.workflows@[w]).name@
                                    == n2;
                            assert(old(self).workflows@[w].name@ == n2);
                        }
                    }
                    assert forall|w: int|
                        0 <= w < old(self).workflows@.len() && (#[trigger] old(self).workflows@[w]).name@
                            != given_name implies exists|j: int|
                        0 <= j < self.workflows@.len() && self.workflows@[j] == old(self).workflows@[w] by {
                        assert(self.workflows@[w] == old(self).workflows@[w]);
                    }
                }
            },
            Option::None => {
                self.workflows.push(entry);
                proof {
                    assert(self.workflows@[old(self).workflows@.len() as int].name@ == given_name);
                    assert(self.has_workflow(given_name));
                    assert forall|n2: Seq<char>| n2 != given_name implies ((
                    #[trigger] self.has_workflow(n2)) == old(self).has_workflow(n2)) by {
                        if old(self).has_workflow(n2) {
                            let w = choose|w: int|
                                0 <= w < old(self).workflows@.len() && (#[trigger] old(self).workflows@[w]).name@ == n2;
                            assert(self.workflows@[w].name@ == n2);
                        }
                        if self.has_workflow(n2) {
                            let w = choose|w: int|
                                0 <= w < self.workflows@.len() && (#[trigger] self.workflows@[w]).name@
                                    == n2;
                            assert(w < old(self).workflows@.len());
                            assert(old(self).workflows@[w].name@ == n2);
                        }
                    }
                    assert forall|w: int|
                        0 <= w < old(self).workflows@.len() && (#[trigger] old(self).workflows@[w]).name@
                            != given_name implies exists|j: int|
                        0 <= j < self.workflows@.len() && self.workflows@[j] == old(self).workflows@[w] by {
                        assert(self.workflows@[w] == old(self).workflows@[w]);
                    }
                }
            },
        }
    }

    /// Registers a workflow without schemas.
    pub fn register_workflow(&mut self, name: String, version: Option<String>)
        requires
            old(self).wf(),
        ensures
            final(self).wf(),
            final(self).runs@ == old(self).runs@,
            final(self).artifacts@ == old(self).artifacts@,
            final(self).has_workflow(name@),
    {
        self.register_workflow_with_schemas(name, version, Option::None, Option::None);
    }

    /// A snapshot of all registered workflows' summaries.
    #[verifier::loop_isolation(false)]
    pub fn list_workflows(&self) -> (r: Vec<WorkflowSummary>)
        ensures
            r@.len() == self.workflows@.len(),
            forall|i: int|
                0 <= i < r@.len() ==> {
                    &&& (#[trigger] r@[i]).name@ == self.workflows@[i].name@
                    &&& view_opt_string(r@[i].version) == view_opt_string(
                        self.workflows@[i].version,
                    )
                    &&& r@[i].description is None
                    &&& r@[i].tags@.len() == 0
                },
    {
        let n = self.workflows.len();
        let mut out: Vec<WorkflowSummary> = Vec::new();
        let mut i: usize = 0;
        while i < n
            invariant
                n == self.workflows@.len(),
                i <= n,
                out@.len() == i,
                forall|j: int|
                    0 <= j < i ==> {
                        &&& (#[trigger] out@[j]).name@ == self.workflows@[j].name@
                        &&& view_opt_string(out@[j].version) == view_opt_string(
                            self.workflows@[j].version,
                        )
                        &&& out@[j].description is None
                        &&& out@[j].tags@.len() == 0
                    },
            decreases n - i,
        {
            let entry = &self.workflows[i];
            out.push(
                WorkflowSummary {
                    name: entry.name.clone(),
                    version: crate::types::dup_opt_string(&entry.version),
                    description: Option::None,
                    tags: Vec::new(),
                },
            );
            i = i + 1;
        }
        out
    }

    /// Workflow detail by name; `None` when the name is not registered.
    pub fn get_workflow(&self, name: &str) -> (r: Option<Workflow>)
        ensures
            r is Some <==> self.has_workflow(name@),
            match r {
                Option::Some(w) => exists|i: int|
                    0 <= i < self.workflows@.len() && (#[trigger] self.workflows@[i]).name@ == name@
                        && w.name@ == name@ && view_opt_string(w.version) == view_opt_string(
                        self.workflows@[i].version,
                    ) && w.description is None && w.tags@.len() == 0 && w.input_schema_ref is None
                        && w.output_schema_ref is None,
                Option::None => true,
            },
    {
        match self.find_workflow(name) {
            Option::Some(i) => {
                let entry = &self.workflows[i];
                Option::Some(
                    Workflow {
                        name: entry.name.clone(),
                        version: crate::types::dup_opt_string(&entry.version),
                        description: Option::None,
                        tags: Vec::new(),
                        input_schema_ref: Option::None,
                        output_schema_ref: Option::None,
                    },
                )
            },
            Option::None => Option::None,
        }
    }

    /// The schema bundle of a registered workflow: whichever schemas are
    /// present, keyed `input` / `output` in that order, with their
    /// fingerprint.
    pub fn get_workflow_schemas(&self, name: &str) -> (r: Option<SchemaBundle>)
        ensures
            r is Some <==> self.has_workflow(name@),
            match r {
                Option::Some(b) => exists|i: int|
                    {
                        &&& 0 <= i < self.workflows@.len()
                        &&& (#[trigger] self.workflows@[i]).name@ == name@
                        &&& b.workflow.name@ == name@
                        &&& view_opt_string(b.workflow.version) == view_opt_string(
                            self.workflows@[i].version,
                        )
                        &&& b.schema_hash@ == schema_hash_chars(
                            view_opt_json(self.workflows@[i].input_schema),
                            view_opt_json(self.workflows@[i].output_schema),
                        )
                        &&& schemas_model(b.schemas@) == schemas_model_of(
                            view_opt_json(self.workflows@[i].input_schema),
                            view_opt_json(self.workflows@[i].output_schema),
                        )
                    },
                Option::None => true,
            },
    {
        match self.find_workflow(name) {
            Option::Some(i) => {
                let entry = &self.workflows[i];
                let hash = schema_hash(&entry.input_schema, &entry.output_schema);
                let ghost gin = view_opt_json(entry.input_schema);
                let ghost gout = view_opt_json(entry.output_schema);
                let schemas: Vec<(String, JsonValue)> = match &entry.input_schema {
                    Option::Some(vi) => match &entry.output_schema {
                        Option::Some(vo) => {
                            let mut s2: Vec<(String, JsonValue)> = Vec::new();
                            s2.push((String::from_str("input"), vi.duplicate()));
                            s2.push((String::from_str("output"), vo.duplicate()));
                            proof {
                                lemma_schemas_model(s2@);
                                assert(gin == Option::Some(vi@));
                                assert(gout == Option::Some(vo@));
                                let target = schemas_model_of(gin, gout);
                                assert(target.len() == 2);
                                assert(target[0] == ("input"@, vi@));
                                assert(target[1] == ("output"@, vo@));
                                assert(schemas_model(s2@)[0] == (s2@[0].0@, s2@[0].1@));
                                assert(schemas_model(s2@)[1] == (s2@[1].0@, s2@[1].1@));
                                assert(s2@[0].0@ == "input"@ && s2@[0].1@ == vi@);
                                assert(s2@[1].0@ == "output"@ && s2@[1].1@ == vo@);
                                assert(schemas_model(s2@) =~= schemas_model_of(gin, gout));
                            }
                            s2
                        },
                        Option::None => {
                            let mut s2: Vec<(String, JsonValue)> = Vec::new();
                            s2.push((String::from_str("input"), vi.duplicate()));
                            proof {
                                lemma_schemas_model(s2@);
                                assert(gin == Option::Some(vi@));
                                assert(gout is None);
                                assert(schemas_model(s2@) =~= schemas_model_of(gin, gout));
                            }
                            s2
                        },
                    },
                    Option::None => match &entry.output_schema {
                        Option::Some(vo) => {
                            let mut s2: Vec<(String, JsonValue)> = Vec::new();
                            s2.push((String::from_str("output"), vo.duplicate()));
                            proof {
                                lemma_schemas_model(s2@);
                                assert(gin is None);
                                assert(gout == Option::Some(vo@));
                                assert(schemas_model(s2@) =~= schemas_model_of(gin, gout));
                            }
                            s2
                        },
                        Option::None => {
                            let s2: Vec<(String, JsonValue)> = Vec::new();
                            proof {
                                lemma_schemas_model(s2@);
                                assert(gin is None);
                                assert(gout is None);
                                assert(schemas_model(s2@) =~= schemas_model_of(gin, gout));
                            }
                            s2
                        },
                    },
                };
                Option::Some(
                    SchemaBundle {
                        workflow: WorkflowRef {
                            name: entry.name.clone(),
                            version: crate::types::dup_opt_string(&entry.version),
                        },
                        schema_hash: hash,
                        schemas,
                    },
                )
            },
            Option::None => Option::None,
        }
    }

    /// A run identifier no existing run carries: `run_` followed by a
    /// freshly drawn identifier or, should that collide, by the decimal
    /// run count, which the invariant keeps out of the store.
    #[verifier::loop_isolation(false)]
    fn fresh_run_id(&self) -> (r: String)
        requires
            self.wf(),
        ensures
            !self.has_run(r@),
            forall|k: int|
                0 <= k && r@ == #[trigger] run_counter_id(k as nat) ==> k == self.runs@.len(),
    {
        let tail = uuid_string();
        let mut id = String::from_str("run_");
        id.append(tail.as_str());
        proof {
            assert forall|k: int| 0 <= k implies id@ != #[trigger] run_counter_id(k as nat) by {
                lemma_uuid_id_not_counter(tail@, k as nat);
            }
        }
        match self.find_run(id.as_str()) {
            Option::None => id,
            Option::Some(_) => {
                let count = self.runs.len() as u64;
                let digits = u64_to_string(count);
                let mut id2 = String::from_str("run_");
                id2.append(digits.as_str());
                proof {
                    assert(id2@ == run_counter_id(self.runs@.len() as nat));
                    if self.has_run(id2@) {
                        let i = choose|i: int|
                            0 <= i < self.runs@.len() && (#[trigger] self.runs@[i]).run.run_id@
                                == id2@;
                        let kk: int = self.runs@.len() as int;
                        assert(self.runs@[i].run.run_id@ == run_counter_id(kk as nat));
                        assert(false);
                    }
                    assert forall|k: int|
                        0 <= k && id2@ == #[trigger] run_counter_id(k as nat) implies k
                        == self.runs@.len() by {
                        lemma_prefix_cancel("run_"@, dec_digits(k as nat), dec_digits(self.runs@.len() as nat));
                        crate::text::lemma_dec_digits_injective(k as nat, self.runs@.len() as nat);
                    }
                }
                id2
            },
        }
    }

    /// Submits a run of a registered workflow: creates the `Queued`
    /// record under a fresh run identifier, with its empty event log and
    /// no subscribers, and returns the snapshot. When the workflow name
    /// is not registered, returns the `workflow_not_found` error and
    /// leaves the store untouched — no run comes into being.
    pub fn create_run(&mut self, req: RunCreateRequest) -> (r: Result<Run, ErrorResponse>)
        requires
            old(self).wf(),
        ensures
            final(self).wf(),
            final(self).workflows@ == old(self).workflows@,
            final(self).artifacts@ == old(self).artifacts@,
            final(self).next_sub_id == old(self).next_sub_id,
            r is Ok <==> old(self).has_workflow(req.workflow.name@),
            match r {
                Result::Ok(run) => {
                    &&& run@.status == RunStatus::Queued
                    &&& run@.timing.started_at is None
                    &&& run@.timing.finished_at is None
                    &&& run@.timing.wall_ms is None
                    &&& run@.input == Option::Some(req.input@)
                    &&& run@.context == view_opt_json(req.context)
                    &&& run@.output is None
                    &&& run@.error is None
                    &&& run@.artifacts.len() == 0
                    &&& run@.workflow.name == req.workflow.name@
                    &&& exists|i: int|
                        0 <= i < old(self).workflows@.len() && (#[trigger] old(self).workflows@[i]).name@
                            == req.workflow.name@ && run@.workflow.version == view_opt_string(
                            old(self).workflows@[i].version,
                        )
                    &&& !old(self).has_run(run@.run_id)
                    &&& final(self).has_run(run@.run_id)
                    &&& final(self).runs@.len() == old(self).runs@.len() + 1
                    &&& forall|i: int|
                        0 <= i < old(self).runs@.len() ==> #[trigger] final(self).runs@[i] == old(self).runs@[i]
                    &&& final(self).runs@.last().run@ == run@
                    &&& final(self).runs@.last().events@.len() == 0
                    &&& final(self).runs@.last().subscribers@.len() == 0
                },
                Result::Err(e) => {
                    &&& final(self).runs@ == old(self).runs@
                    &&& e@.code == "workflow_not_found"@
                    &&& e@.message == "workflow "@ + req.workflow.name@ + " not registered"@
                    &&& e@.retryable == false
                    &&& e@.details is None
                },
            },
    {
        let found = self.find_workflow(req.workflow.name.as_str());
        match found {
            Option::None => {
                let mut msg = String::from_str("workflow ");
                msg.append(req.workflow.name.as_str());
                msg.append(" not registered");
                proof {
                    assert(msg@ =~= "workflow "@ + req.workflow.name@ + " not registered"@);
                }
                Result::Err(
                    ErrorResponse {
                        code: String::from_str("workflow_not_found"),
                        message: msg,
                        retryable: false,
                        details: Option::None,
                    },
                )
            },
            Option::Some(i) => {
                let wf_name = self.workflows[i].name.clone();
                let wf_version = crate::types::dup_opt_string(&self.workflows[i].version);
                let run_id = self.fresh_run_id();
                let ghost fresh_id: Seq<char> = run_id@;
                let now = now_ms();
                let created: i64 = if now < 0 {
                    0
                } else {
                    now
                };
                let run = Run {
                    run_id,
                    workflow: WorkflowRef { name: wf_name, version: wf_version },
                    status: RunStatus::Queued,
                    trace_id: Option::None,
                    tenant_id: Option::None,
                    timing: Timing {
                        created_at: created,
                        started_at: Option::None,
                        finished_at: Option::None,
                        wall_ms: Option::None,
                    },
                    input: Option::Some(req.input),
                    context: req.context,
                    output: Option::None,
                    error: Option::None,
                    artifacts: Vec::new(),
                };
                let record = RunRecord {
                    run: run.duplicate(),
                    events: Vec::new(),
                    subscribers: Vec::new(),
                };
                self.runs.push(record);
                proof {
                    crate::types::lemma_view_refs(run.artifacts@);
                    assert(run_wf(run@));
                    assert forall|a: int|
                        0 <= a < old(self).runs@.len() implies (#[trigger] old(self).runs@[a]).run.run_id@
                        != fresh_id by {
                        if old(self).runs@[a].run.run_id@ == fresh_id {
                            assert(old(self).has_run(fresh_id));
                        }
                    }
                    assert(self.runs@.last().run.run_id@ == fresh_id);
                    assert(self.has_run(fresh_id));
                    assert forall|a: int, k: int|
                        #![trigger self.runs@[a].run.run_id@, run_counter_id(k as nat)]
                        0 <= a < self.runs@.len() && 0 <= k && self.runs@[a].run.run_id@
                            == run_counter_id(k as nat) implies k < self.runs@.len() by {
                        if a < old(self).runs@.len() {
                            assert(old(self).runs@[a].run.run_id@ == run_counter_id(k as nat));
                        } else {
                            assert(self.runs@[a].run.run_id@ == fresh_id);
                        }
                    }
                }
                Result::Ok(run)
            },
        }
    }

    /// The current snapshot of a run, or `None` when the identifier is
    /// unknown.
    pub fn get_run(&self, run_id: &str) -> (r: Option<Run>)
        ensures
            r is Some <==> self.has_run(run_id@),
            match r {
                Option::Some(run) => exists|i: int|
                    0 <= i < self.runs@.len() && (#[trigger] self.runs@[i]).run.run_id@ == run_id@
                        && run@ == self.runs@[i].run@,
                Option::None => true,
            },
    {
        match self.find_run(run_id) {
            Option::Some(i) => Option::Some(self.runs[i].run.duplicate()),
            Option::None => Option::None,
        }
    }

    /// The full ordered snapshot of a run's event log, or `None` when
    /// the identifier is unknown.
    #[verifier::loop_isolation(false)]
    pub fn list_events(&self, run_id: &str) -> (r: Option<Vec<Event>>)
        ensures
            r is Some <==> self.has_run(run_id@),
            match r {
                Option::Some(events) => exists|i: int|
                    0 <= i < self.runs@.len() && (#[trigger] self.runs@[i]).run.run_id@ == run_id@
                        && crate::types::view_events(events@) == crate::types::view_events(
                        self.runs@[i].events@,
                    ),
                Option::None => true,
            },
    {
        broadcast use crate::types::lemma_view_events;

        match self.find_run(run_id) {
            Option::Some(i) => {
                let log = &self.runs[i].events;
                let n = log.len();
                let mut out: Vec<Event> = Vec::new();
                let mut j: usize = 0;
                while j < n
                    invariant
                        n == log@.len(),
                        j <= n,
                        out@.len() == j,
                        forall|t: int| 0 <= t < j ==> (#[trigger] out@[t])@ == log@[t]@,
                    decreases n - j,
                {
                    let copied = log[j].duplicate();
                    out.push(copied);
                    j = j + 1;
                }
                proof {
                    assert forall|t: int|
                        0 <= t < n implies crate::types::view_events(out@)[t]
                        == crate::types::view_events(log@)[t] by {
                        assert(crate::types::view_events(out@)[t] == out@[t]@);
                        assert(crate::types::view_events(log@)[t] == log@[t]@);
                    }
                    assert(crate::types::view_events(out@) =~= crate::types::view_events(log@));
                }
                Option::Some(out)
            },
            Option::None => Option::None,
        }
    }

    /// The stored artifact under the given identifier, or `None`. When
    /// identifiers were not unique — which producing workflows must
    /// prevent — the one stored last wins.
    #[verifier::loop_isolation(false)]
    pub fn get_artifact(&self, artifact_id: &str) -> (r: Option<Artifact>)
        ensures
            r is Some <==> exists|i: int|
                0 <= i < self.artifacts@.len() && (#[trigger] self.artifacts@[i]).artifact_id@
                    == artifact_id@,
            match r {
                Option::Some(a) => exists|i: int|
                    {
                        &&& 0 <= i < self.artifacts@.len()
                        &&& (#[trigger] self.artifacts@[i]).artifact_id@ == artifact_id@
                        &&& a@ == self.artifacts@[i]@
                        &&& forall|j: int|
                            i < j < self.artifacts@.len() ==> (#[trigger] self.artifacts@[j]).artifact_id@
                                != artifact_id@
                    },
                Option::None => true,
            },
    {
        let n = self.artifacts.len();
        let mut i: usize = n;
        while i > 0
            invariant
                n == self.artifacts@.len(),
                i <= n,
                forall|j: int| i <= j < n ==> (#[trigger] self.artifacts@[j]).artifact_id@ != artifact_id@,
            decreases i,
        {
            i = i - 1;
            if str_eq(self.artifacts[i].artifact_id.as_str(), artifact_id) {
                return Option::Some(self.artifacts[i].duplicate());
            }
        }
        Option::None
    }

    /// Appends one event to a run's log, with a fresh event identifier
    /// and the current timestamp. The publish to the live channels needs
    /// no separate step: subscribers read the log from their own cursor.
    fn emit_event(
        &mut self,
        idx: usize,
        event_type: EventType,
        step_id: Option<String>,
        payload: JsonValue,
    )
        requires
            old(self).wf(),
            idx < old(self).runs@.len(),
        ensures
            final(self).wf(),
            final(self).workflows@ == old(self).workflows@,
            final(self).artifacts@ == old(self).artifacts@,
            final(self).next_sub_id == old(self).next_sub_id,
            final(self).runs@.len() == old(self).runs@.len(),
            forall|j: int|
                0 <= j < old(self).runs@.len() && j != idx ==> #[trigger] final(self).runs@[j]
                    == old(self).runs@[j],
            final(self).runs@[idx as int].run == old(self).runs@[idx as int].run,
            final(self).runs@[idx as int].subscribers == old(self).runs@[idx as int].subscribers,
            final(self).runs@[idx as int].events@.len() == old(self).runs@[idx as int].events@.len()
                + 1,
            forall|j: int|
                0 <= j < old(self).runs@[idx as int].events@.len() ==> #[trigger] final(self).runs@[idx as int].events@[j] == old(self).runs@[idx as int].events@[j],
            ({
                let e = final(self).runs@[idx as int].events@.last()@;
                &&& e.event_type == event_type
                &&& e.run_id == old(self).runs@[idx as int].run.run_id@
                &&& e.step_id == view_opt_string(step_id)
                &&& e.tool_name is None
                &&& e.payload == payload@
            }),
    {
        let tail = uuid_string();
        let mut event_id = String::from_str("evt_");
        event_id.append(tail.as_str());
        let ts = now_ms();
        let run_id = self.runs[idx].run.run_id.clone();
        let event = Event {
            event_id,
            ts,
            event_type,
            run_id,
            step_id,
            tool_name: Option::None,
            payload,
        };
        let record = &mut self.runs[idx];
        record.events.push(event);
        proof {
            assert forall|a: int|
                0 <= a < self.runs@.len() implies (#[trigger] self.runs@[a]).run.run_id@ == old(self).runs@[a].run.run_id@ by {
                if a != idx {
                    assert(self.runs@[a] == old(self).runs@[a]);
                }
            }
        }
    }

    /// Attaches a fresh subscriber to a run's live channel. The
    /// subscriber's cursor starts at the current end of the log: only
    /// events emitted after this call are delivered, with no replay of
    /// history.
    pub fn subscribe_events(&mut self, run_id: &str) -> (r: Option<u64>)
        requires
            old(self).wf(),
            old(self).next_sub_id < u64::MAX,
        ensures
            final(self).wf(),
            final(self).workflows@ == old(self).workflows@,
            final(self).artifacts@ == old(self).artifacts@,
            final(self).runs@.len() == old(self).runs@.len(),
            r is Some <==> old(self).has_run(run_id@),
            match r {
                Option::Some(sid) => {
                    &&& sid == old(self).next_sub_id
                    &&& final(self).next_sub_id == old(self).next_sub_id + 1
                    &&& exists|i: int|
                        {
                            &&& 0 <= i < old(self).runs@.len()
                            &&& (#[trigger] old(self).runs@[i]).run.run_id@ == run_id@
                            &&& final(self).runs@[i].run == old(self).runs@[i].run
                            &&& final(self).runs@[i].events == old(self).runs@[i].events
                            &&& final(self).runs@[i].subscribers@ == old(self).runs@[i].subscribers@.push(
                                Subscriber {
                                    sub_id: sid,
                                    next: old(self).runs@[i].events@.len() as usize,
                                },
                            )
                            &&& forall|j: int|
                                0 <= j < old(self).runs@.len() && j != i
                                    ==> #[trigger] final(self).runs@[j] == old(self).runs@[j]
                        }
                },
                Option::None => final(self).runs@ == old(self).runs@ && final(self).next_sub_id
                    == old(self).next_sub_id,
            },
    {
        match self.find_run(run_id) {
            Option::Some(i) => {
                let sid = self.next_sub_id;
                self.next_sub_id = sid + 1;
                let position = self.runs[i].events.len();
                let record = &mut self.runs[i];
                record.subscribers.push(Subscriber { sub_id: sid, next: position });
                proof {
                    assert forall|a: int|
                        0 <= a < self.runs@.len() implies (#[trigger] self.runs@[a]).run.run_id@
                        == old(self).runs@[a].run.run_id@ by {
                        if a != i {
                            assert(self.runs@[a] == old(self).runs@[a]);
                        }
                    }
                    assert forall|a: int|
                        0 <= a < self.runs@.len() implies record_wf(
                        #[trigger] self.runs@[a],
                        self.next_sub_id,
                    ) by {
                        if a != i {
                            assert(self.runs@[a] == old(self).runs@[a]);
                            assert(record_wf(old(self).runs@[a], old(self).next_sub_id));
                        } else {
                            assert(record_wf(old(self).runs@[a], old(self).next_sub_id));
                            let subs = self.runs@[a].subscribers@;
                            assert(subs == old(self).runs@[a].subscribers@.push(
                                Subscriber { sub_id: sid, next: position },
                            ));
                            assert forall|x: int|
                                0 <= x < subs.len() implies (#[trigger] subs[x]).next
                                <= self.runs@[a].events@.len() && subs[x].sub_id
                                < self.next_sub_id by {
                                if x < subs.len() - 1 {
                                    assert(subs[x] == old(self).runs@[a].subscribers@[x]);
                                }
                            }
                            assert forall|x: int, y: int|
                                0 <= x < y < subs.len() implies subs[x].sub_id
                                != subs[y].sub_id by {
                                if y < subs.len() - 1 {
                                    assert(subs[x] == old(self).runs@[a].subscribers@[x]);
                                    assert(subs[y] == old(self).runs@[a].subscribers@[y]);
                                } else {
                                    assert(subs[x] == old(self).runs@[a].subscribers@[x]);
                                    assert(subs[x].sub_id < old(self).next_sub_id);
                                }
                            }
                        }
                    }
                }
                Option::Some(sid)
            },
            Option::None => Option::None,
        }
    }

    /// Index of the subscriber with the given identifier in a record.
    #[verifier::loop_isolation(false)]
    fn find_subscriber(record: &RunRecord, sub_id: u64) -> (r: Option<usize>)
        ensures
            match r {
                Option::Some(s) => s < record.subscribers@.len()
                    && record.subscribers@[s as int].sub_id == sub_id,
                Option::None => forall|x: int|
                    0 <= x < record.subscribers@.len() ==> (
                    #[trigger] record.subscribers@[x]).sub_id != sub_id,
            },
    {
        let n = record.subscribers.len();
        let mut s: usize = 0;
        while s < n
            invariant
                n == record.subscribers@.len(),
                s <= n,
                forall|x: int| 0 <= x < s ==> (#[trigger] record.subscribers@[x]).sub_id != sub_id,
            decreases n - s,
        {
            if record.subscribers[s].sub_id == sub_id {
                return Option::Some(s);
            }
            s = s + 1;
        }
        Option::None
    }

    /// Hands a subscriber every event emitted since its cursor, moving
    /// the cursor to the end of the log. A subscriber further behind
    /// than the channel capacity loses the oldest events beyond the
    /// window; the count of dropped events is reported alongside, the
    /// cue to resynchronize from the durable log.
    #[verifier::loop_isolation(false)]
    pub fn poll_events(&mut self, run_id: &str, sub_id: u64) -> (r: Option<(Vec<Event>, usize)>)
        requires
            old(self).wf(),
        ensures
            final(self).wf(),
            final(self).workflows@ == old(self).workflows@,
            final(self).artifacts@ == old(self).artifacts@,
            final(self).next_sub_id == old(self).next_sub_id,
            final(self).runs@.len() == old(self).runs@.len(),
            r is Some <==> exists|i: int, s: int|
                #![trigger old(self).runs@[i].subscribers@[s]]
                0 <= i < old(self).runs@.len() && old(self).runs@[i].run.run_id@ == run_id@ && 0
                    <= s < old(self).runs@[i].subscribers@.len()
                    && old(self).runs@[i].subscribers@[s].sub_id == sub_id,
            match r {
                Option::Some(out) => exists|i: int, s: int|
                    #![trigger old(self).runs@[i].subscribers@[s]]
                    {
                        let log = old(self).runs@[i].events@;
                        let cursor = old(self).runs@[i].subscribers@[s].next as int;
                        let start = if log.len() - cursor > CHANNEL_CAPACITY as int {
                            log.len() - CHANNEL_CAPACITY as int
                        } else {
                            cursor
                        };
                        &&& 0 <= i < old(self).runs@.len()
                        &&& old(self).runs@[i].run.run_id@ == run_id@
                        &&& 0 <= s < old(self).runs@[i].subscribers@.len()
                        &&& old(self).runs@[i].subscribers@[s].sub_id == sub_id
                        &&& out.1 == start - cursor
                        &&& crate::types::view_events(out.0@) == crate::types::view_events(
                            log.subrange(start, log.len() as int),
                        )
                        &&& final(self).runs@[i].run == old(self).runs@[i].run
                        &&& final(self).runs@[i].events == old(self).runs@[i].events
                        &&& final(self).runs@[i].subscribers@ == old(self).runs@[i].subscribers@.update(
                            s,
                            Subscriber { sub_id, next: log.len() as usize },
                        )
                        &&& forall|j: int|
                            0 <= j < old(self).runs@.len() && j != i
                                ==> #[trigger] final(self).runs@[j] == old(self).runs@[j]
                    },
                Option::None => final(self).runs@ == old(self).runs@,
            },
    {
        broadcast use crate::types::lemma_view_events;

        match self.find_run(run_id) {
            Option::Some(i) => {
                match Self::find_subscriber(&self.runs[i], sub_id) {
                    Option::Some(s) => {
                        proof {
                            assert(record_wf(self.runs@[i as int], self.next_sub_id));
                            assert(self.runs@[i as int].subscribers@[s as int].next
                                <= self.runs@[i as int].events@.len());
                        }
                        let log_len = self.runs[i].events.len();
                        let cursor = self.runs[i].subscribers[s].next;
                        let start = if log_len - cursor > CHANNEL_CAPACITY {
                            log_len - CHANNEL_CAPACITY
                        } else {
                            cursor
                        };
                        let dropped = start - cursor;
                        let mut out: Vec<Event> = Vec::new();
                        let mut t: usize = start;
                        while t < log_len
                            invariant
                                start <= t <= log_len,
                                out@.len() == t - start,
                                forall|x: int|
                                    0 <= x < out@.len() ==> (#[trigger] out@[x])@
                                        == self.runs@[i as int].events@[start + x]@,
                            decreases log_len - t,
                        {
                            let copied = self.runs[i].events[t].duplicate();
                            out.push(copied);
                            t = t + 1;
                        }
                        let record = &mut self.runs[i];
                        let moved = record.subscribers[s];
                        record.subscribers.set(
                            s,
                            Subscriber { sub_id: moved.sub_id, next: log_len },
                        );
                        proof {
                            let log = old(self).runs@[i as int].events@;
                            let tail = log.subrange(start as int, log.len() as int);
                            assert(out@.len() == tail.len());
                            assert forall|x: int|
                                0 <= x < tail.len() implies crate::types::view_events(out@)[x]
                                == crate::types::view_events(tail)[x] by {
                                assert(crate::types::view_events(out@)[x] == out@[x]@);
                                assert(crate::types::view_events(tail)[x] == tail[x]@);
                                assert(tail[x] == log[start + x]);
                            }
                            assert(crate::types::view_events(out@) =~= crate::types::view_events(
                                tail,
                            ));
                            assert forall|a: int|
                                0 <= a < self.runs@.len() implies (
                            #[trigger] self.runs@[a]).run.run_id@ == old(self).runs@[a].run.run_id@ by {
                                if a != i {
                                    assert(self.runs@[a] == old(self).runs@[a]);
                                }
                            }
                            assert forall|a: int|
                                0 <= a < self.runs@.len() implies record_wf(
                                #[trigger] self.runs@[a],
                                self.next_sub_id,
                            ) by {
                                assert(record_wf(old(self).runs@[a], old(self).next_sub_id));
                                if a == i {
                                    let subs = self.runs@[a].subscribers@;
                                    assert forall|x: int|
                                        0 <= x < subs.len() implies (#[trigger] subs[x]).next
                                        <= self.runs@[a].events@.len() && subs[x].sub_id
                                        < self.next_sub_id by {
                                        if x != s {
                                            assert(subs[x] == old(self).runs@[a].subscribers@[x]);
                                        } else {
                                            assert(subs[x].sub_id == old(self).runs@[a].subscribers@[x].sub_id);
                                        }
                                    }
                                    assert forall|x: int, y: int|
                                        0 <= x < y < subs.len() implies subs[x].sub_id
                                        != subs[y].sub_id by {
                                        assert(old(self).runs@[a].subscribers@[x].sub_id != old(self).runs@[a].subscribers@[y].sub_id);
                                        if x != s {
                                            assert(subs[x] == old(self).runs@[a].subscribers@[x]);
                                        } else {
                                            assert(subs[x].sub_id == old(self).runs@[a].subscribers@[x].sub_id);
                                        }
                                        if y != s {
                                            assert(subs[y] == old(self).runs@[a].subscribers@[y]);
                                        } else {
                                            assert(subs[y].sub_id == old(self).runs@[a].subscribers@[y].sub_id);
                                        }
                                    }
                                } else {
                                    assert(self.runs@[a] == old(self).runs@[a]);
                                }
                            }
                        }
                        Option::Some((out, dropped))
                    },
                    Option::None => {
                        proof {
                            assert forall|a: int, x: int|
                                #![trigger old(self).runs@[a].subscribers@[x]]
                                0 <= a < old(self).runs@.len() && old(self).runs@[a].run.run_id@
                                    == run_id@ && 0 <= x < old(self).runs@[a].subscribers@.len() implies old(self).runs@[a].subscribers@[x].sub_id != sub_id by {
                                assert(a == i as int);
                            }
                        }
                        Option::None
                    },
                }
            },
            Option::None => {
                proof {
                    assert forall|a: int, x: int|
                        #![trigger old(self).runs@[a].subscribers@[x]]
                        0 <= a < old(self).runs@.len() && old(self).runs@[a].run.run_id@ == run_id@
                            && 0 <= x < old(self).runs@[a].subscribers@.len() implies old(self).runs@[a].subscribers@[x].sub_id != sub_id by {
                        assert(old(self).has_run(run_id@));
                    }
                }
                Option::None
            },
        }
    }

    /// Takes a queued run into `Running`: records the start time, emits
    /// `run.started` and `step.started`, and hands back the resolved
    /// workflow reference and the captured input for the caller to invoke
    /// the capability with. Returns `None`, changing nothing, when the
    /// run is unknown or not queued.
    pub fn begin_run(&mut self, run_id: &str) -> (r: Option<(WorkflowRef, Option<JsonValue>)>)
        requires
            old(self).wf(),
        ensures
            final(self).wf(),
            final(self).workflows@ == old(self).workflows@,
            final(self).artifacts@ == old(self).artifacts@,
            final(self).next_sub_id == old(self).next_sub_id,
            final(self).runs@.len() == old(self).runs@.len(),
            r is Some <==> exists|i: int|
                0 <= i < old(self).runs@.len() && (#[trigger] old(self).runs@[i]).run.run_id@
                    == run_id@ && old(self).runs@[i].run@.status == RunStatus::Queued,
            match r {
                Option::Some(handoff) => exists|i: int|
                    {
                        let oldv = old(self).runs@[i].run@;
                        let newv = final(self).runs@[i].run@;
                        let oldlog = old(self).runs@[i].events@;
                        let newlog = final(self).runs@[i].events@;
                        &&& 0 <= i < old(self).runs@.len()
                        &&& (#[trigger] old(self).runs@[i]).run.run_id@ == run_id@
                        &&& oldv.status == RunStatus::Queued
                        &&& handoff.0@ == oldv.workflow
                        &&& view_opt_json(handoff.1) == oldv.input
                        &&& newv.status == RunStatus::Running
                        &&& newv.run_id == oldv.run_id
                        &&& newv.workflow == oldv.workflow
                        &&& newv.input == oldv.input
                        &&& newv.context == oldv.context
                        &&& newv.trace_id == oldv.trace_id
                        &&& newv.tenant_id == oldv.tenant_id
                        &&& newv.output is None
                        &&& newv.error is None
                        &&& newv.artifacts.len() == 0
                        &&& newv.timing.created_at == oldv.timing.created_at
                        &&& match newv.timing.started_at {
                            Option::Some(st) => st >= oldv.timing.created_at,
                            Option::None => false,
                        }
                        &&& newv.timing.finished_at is None
                        &&& newv.timing.wall_ms is None
                        &&& newlog.len() == oldlog.len() + 2
                        &&& forall|j: int| 0 <= j < oldlog.len() ==> #[trigger] newlog[j] == oldlog[j]
                        &&& is_run_started(
                            newlog[oldlog.len() as int]@,
                            run_id@,
                            oldv.workflow.name,
                            oldv.workflow.version,
                        )
                        &&& is_step_started(newlog[oldlog.len() as int + 1]@, run_id@)
                        &&& final(self).runs@[i].subscribers == old(self).runs@[i].subscribers
                        &&& forall|j: int|
                            0 <= j < old(self).runs@.len() && j != i
                                ==> #[trigger] final(self).runs@[j] == old(self).runs@[j]
                    },
                Option::None => final(self).runs@ == old(self).runs@,
            },
    {
        match self.find_run(run_id) {
            Option::Some(i) => {
                let queued = match self.runs[i].run.status {
                    RunStatus::Queued => true,
                    _ => false,
                };
                if !queued {
                    proof {
                        assert forall|a: int|
                            0 <= a < old(self).runs@.len() && (#[trigger] old(self).runs@[a]).run.run_id@
                                == run_id@ implies old(self).runs@[a].run@.status
                            != RunStatus::Queued by {
                            assert(a == i as int);
                        }
                    }
                    return Option::None;
                }
                proof {
                    assert(record_wf(self.runs@[i as int], self.next_sub_id));
                }
                let wf_ref = self.runs[i].run.workflow.duplicate();
                let created = self.runs[i].run.timing.created_at;
                let now = now_ms();
                let started: i64 = if now < created {
                    created
                } else {
                    now
                };
                let record = &mut self.runs[i];
                record.run.status = RunStatus::Running;
                record.run.timing.started_at = Option::Some(started);
                proof {
                    assert forall|a: int|
                        0 <= a < self.runs@.len() implies (#[trigger] self.runs@[a]).run.run_id@
                        == old(self).runs@[a].run.run_id@ by {
                        if a != i {
                            assert(self.runs@[a] == old(self).runs@[a]);
                        }
                    }
                    assert forall|a: int|
                        0 <= a < self.runs@.len() implies record_wf(
                        #[trigger] self.runs@[a],
                        self.next_sub_id,
                    ) by {
                        assert(record_wf(old(self).runs@[a], old(self).next_sub_id));
                        if a != i {
                            assert(self.runs@[a] == old(self).runs@[a]);
                        }
                    }
                }
                let version_json = crate::types::json_of_opt_string(&wf_ref.version);
                let name_json = JsonValue::Str(wf_ref.name.clone());
                let inner = crate::json::obj2("name", name_json, "version", version_json);
                let payload = crate::json::obj1("workflow", inner);
                proof {
                    assert(payload@ == run_started_payload(
                        old(self).runs@[i as int].run@.workflow.name,
                        old(self).runs@[i as int].run@.workflow.version,
                    ));
                }
                self.emit_event(i, EventType::RunStarted, Option::None, payload);
                self.emit_event(
                    i,
                    EventType::StepStarted,
                    Option::Some(String::from_str("workflow.run")),
                    crate::json::obj0(),
                );
                let input_copy = crate::types::dup_opt_json(&self.runs[i].run.input);
                Option::Some((wf_ref, input_copy))
            },
            Option::None => {
                proof {
                    assert forall|a: int|
                        0 <= a < old(self).runs@.len() implies (#[trigger] old(self).runs@[a]).run.run_id@
                        != run_id@ by {
                        if old(self).runs@[a].run.run_id@ == run_id@ {
                            assert(old(self).has_run(run_id@));
                        }
                    }
                }
                Option::None
            },
        }
    }

    /// Completes a running run: stores each returned artifact in
    /// production order, emitting one `artifact.created` per artifact,
    /// then records the finish time and wall duration, transitions to
    /// `Succeeded` with the output and the accumulated artifact
    /// references, and emits `step.completed` and `run.completed`.
    /// Returns false, changing nothing, when the run is unknown or not
    /// running.
    #[verifier::loop_isolation(false)]
    #[verifier::rlimit(80)]
    pub fn finish_run_success(
        &mut self,
        run_id: &str,
        output: JsonValue,
        artifacts: &Vec<Artifact>,
    ) -> (r: bool)
        requires
            old(self).wf(),
        ensures
            final(self).wf(),
            final(self).workflows@ == old(self).workflows@,
            final(self).next_sub_id == old(self).next_sub_id,
            final(self).runs@.len() == old(self).runs@.len(),
            r <==> exists|i: int|
                0 <= i < old(self).runs@.len() && (#[trigger] old(self).runs@[i]).run.run_id@
                    == run_id@ && old(self).runs@[i].run@.status == RunStatus::Running,
            !r ==> final(self).runs@ == old(self).runs@ && final(self).artifacts@ == old(self).artifacts@,
            r ==> exists|i: int|
                #![trigger old(self).runs@[i]]
                finish_success_post(*old(self), *final(self), i, run_id@, output@, artifacts@),
    {
        match self.find_run(run_id) {
            Option::Some(i) => {
                let running = match self.runs[i].run.status {
                    RunStatus::Running => true,
                    _ => false,
                };
                if !running {
                    proof {
                        assert forall|a: int|
                            0 <= a < old(self).runs@.len() && (#[trigger] old(self).runs@[a]).run.run_id@
                                == run_id@ implies old(self).runs@[a].run@.status
                            != RunStatus::Running by {
                            assert(a == i as int);
                        }
                    }
                    return false;
                }
                proof {
                    assert(record_wf(self.runs@[i as int], self.next_sub_id));
                }
                let ghost gout: Json = output@;
                let ghost run_id_seq: Seq<char> = self.runs@[i as int].run.run_id@;
                let ghost oldlog_len: int = self.runs@[i as int].events@.len() as int;
                let ghost old_alen: int = self.artifacts@.len() as int;
                let n = artifacts.len();
                let mut refs: Vec<crate::types::ArtifactRef> = Vec::new();
                let mut t: usize = 0;
                while t < n
                    invariant
                        t <= n,
                        n == artifacts@.len(),
                        self.wf(),
                        self.workflows@ == old(self).workflows@,
                        self.next_sub_id == old(self).next_sub_id,
                        self.runs@.len() == old(self).runs@.len(),
                        0 <= i < self.runs@.len(),
                        forall|j: int|
                            0 <= j < old(self).runs@.len() && j != i
                                ==> #[trigger] self.runs@[j] == old(self).runs@[j],
                        self.runs@[i as int].run == old(self).runs@[i as int].run,
                        self.runs@[i as int].subscribers == old(self).runs@[i as int].subscribers,
                        self.artifacts@.len() == old_alen + t,
                        forall|x: int|
                            0 <= x < old_alen ==> #[trigger] self.artifacts@[x] == old(self).artifacts@[x],
                        forall|x: int|
                            0 <= x < t ==> (#[trigger] self.artifacts@[old_alen + x])@
                                == artifacts@[x]@,
                        self.runs@[i as int].events@.len() == oldlog_len + t,
                        forall|j: int|
                            0 <= j < oldlog_len ==> #[trigger] self.runs@[i as int].events@[j]
                                == old(self).runs@[i as int].events@[j],
                        forall|x: int|
                            0 <= x < t ==> is_artifact_created(
                                (#[trigger] self.runs@[i as int].events@[oldlog_len + x])@,
                                run_id_seq,
                                artifacts@[x].artifact_id@,
                            ),
                        refs@.len() == t,
                        forall|x: int|
                            0 <= x < t ==> (#[trigger] refs@[x])@ == crate::types::ref_of_artifact(
                                artifacts@[x]@,
                            ),
                    decreases n - t,
                {
                    let stored = artifacts[t].duplicate();
                    self.artifacts.push(stored);
                    let one_ref = artifacts[t].to_ref();
                    refs.push(one_ref);
                    let id_json = JsonValue::Str(artifacts[t].artifact_id.clone());
                    let payload = crate::json::obj1("artifact_id", id_json);
                    self.emit_event(i, EventType::ArtifactCreated, Option::None, payload);
                    t = t + 1;
                }
                let started = match self.runs[i].run.timing.started_at {
                    Option::Some(st) => st,
                    Option::None => 0,
                };
                proof {
                    assert(record_wf(self.runs@[i as int], self.next_sub_id));
                    assert(self.runs@[i as int].run@.timing.started_at == Option::Some(started));
                    assert(started >= self.runs@[i as int].run@.timing.created_at >= 0);
                }
                let now = now_ms();
                let finished: i64 = if now < started {
                    started
                } else {
                    now
                };
                let wall: i64 = finished - started;
                let ghost grefs: Seq<crate::types::ArtifactRef> = refs@;
                let record = &mut self.runs[i];
                record.run.status = RunStatus::Succeeded;
                record.run.output = Option::Some(output);
                record.run.artifacts = refs;
                record.run.timing.finished_at = Option::Some(finished);
                record.run.timing.wall_ms = Option::Some(wall);
                proof {
                    crate::types::lemma_view_refs(self.runs@[i as int].run.artifacts@);
                    assert forall|a: int|
                        0 <= a < self.runs@.len() implies (#[trigger] self.runs@[a]).run.run_id@
                        == old(self).runs@[a].run.run_id@ by {
                        if a != i {
                            assert(self.runs@[a] == old(self).runs@[a]);
                        }
                    }
                    assert forall|a: int|
                        0 <= a < self.runs@.len() implies record_wf(
                        #[trigger] self.runs@[a],
                        self.next_sub_id,
                    ) by {
                        if a != i {
                            assert(record_wf(old(self).runs@[a], old(self).next_sub_id));
                            assert(self.runs@[a] == old(self).runs@[a]);
                        }
                    }
                }
                let ok_json = crate::json::obj1("ok", JsonValue::Bool(true));
                self.emit_event(
                    i,
                    EventType::StepCompleted,
                    Option::Some(String::from_str("workflow.run")),
                    ok_json,
                );
                let status_json = crate::json::obj1(
                    "status",
                    JsonValue::Str(String::from_str("succeeded")),
                );
                self.emit_event(i, EventType::RunCompleted, Option::None, status_json);
                proof {
                    let gi = i as int;
                    let oldv = old(self).runs@[gi].run@;
                    let newv = self.runs@[gi].run@;
                    let oldlog = old(self).runs@[gi].events@;
                    let newlog = self.runs@[gi].events@;
                    let gn = artifacts@.len() as int;
                    let alen = old(self).artifacts@.len() as int;
                    assert(newv.status == RunStatus::Succeeded);
                    assert(newv.run_id == oldv.run_id);
                    assert(newv.workflow == oldv.workflow);
                    assert(newv.input == oldv.input);
                    assert(newv.output == Option::Some(gout));
                    assert(newv.error is None);
                    assert(newv.artifacts.len() == gn);
                    assert(self.runs@[gi].run.artifacts@ == grefs);
                    assert forall|t: int|
                        0 <= t < gn implies newv.artifacts[t] == crate::types::ref_of_artifact(
                        (#[trigger] artifacts@[t])@,
                    ) by {
                        crate::types::lemma_view_refs(grefs);
                        assert(newv.artifacts == crate::types::view_refs(grefs));
                        assert(crate::types::view_refs(grefs)[t] == grefs[t]@);
                        assert(grefs[t]@ == crate::types::ref_of_artifact(artifacts@[t]@));
                    }
                    assert(newv.timing.created_at == oldv.timing.created_at);
                    assert(newv.timing.started_at == oldv.timing.started_at);
                    assert(match (
                        newv.timing.started_at,
                        newv.timing.finished_at,
                        newv.timing.wall_ms,
                    ) {
                        (Option::Some(st), Option::Some(f), Option::Some(w)) => f >= st && w == f
                            - st,
                        _ => false,
                    });
                    assert(self.artifacts@.len() == alen + gn);
                    assert(forall|t: int|
                        0 <= t < alen ==> #[trigger] self.artifacts@[t] == old(self).artifacts@[t]);
                    assert(forall|t: int|
                        0 <= t < gn ==> (#[trigger] self.artifacts@[alen + t])@ == artifacts@[t]@);
                    assert(newlog.len() == oldlog.len() + gn + 2);
                    assert(forall|j: int| 0 <= j < oldlog.len() ==> #[trigger] newlog[j] == oldlog[j]);
                    assert(forall|t: int|
                        0 <= t < gn ==> is_artifact_created(
                            (#[trigger] newlog[oldlog.len() + t])@,
                            run_id@,
                            artifacts@[t].artifact_id@,
                        ));
                    assert(is_step_completed(newlog[oldlog.len() + gn]@, run_id@));
                    assert(is_run_completed(newlog[oldlog.len() + gn + 1]@, run_id@));
                    assert(self.runs@[gi].subscribers == old(self).runs@[gi].subscribers);
                    assert(forall|j: int|
                        0 <= j < old(self).runs@.len() && j != gi ==> #[trigger] self.runs@[j]
                            == old(self).runs@[j]);
                    assert(finish_success_post(
                        *old(self),
                        *self,
                        i as int,
                        run_id@,
                        gout,
                        artifacts@,
                    ));
                }
                true
            },
            Option::None => {
                proof {
                    assert forall|a: int|
                        0 <= a < old(self).runs@.len() implies (#[trigger] old(self).runs@[a]).run.run_id@
                        != run_id@ by {
                        if old(self).runs@[a].run.run_id@ == run_id@ {
                            assert(old(self).has_run(run_id@));
                        }
                    }
                }
                false
            },
        }
    }

    /// Fails a running run: records the finish time and wall duration,
    /// transitions to `Failed` with the `workflow_error` envelope — the
    /// capability's message and its advisory retryable tag forwarded
    /// verbatim — and emits `step.failed` and `run.failed`, with no
    /// `artifact.created` event. Returns false, changing nothing, when
    /// the run is unknown or not running.
    pub fn finish_run_failure(&mut self, run_id: &str, error: &crate::types::AgentError) -> (r:
        bool)
        requires
            old(self).wf(),
        ensures
            final(self).wf(),
            final(self).workflows@ == old(self).workflows@,
            final(self).artifacts@ == old(self).artifacts@,
            final(self).next_sub_id == old(self).next_sub_id,
            final(self).runs@.len() == old(self).runs@.len(),
            r <==> exists|i: int|
                0 <= i < old(self).runs@.len() && (#[trigger] old(self).runs@[i]).run.run_id@
                    == run_id@ && old(self).runs@[i].run@.status == RunStatus::Running,
            !r ==> final(self).runs@ == old(self).runs@,
            r ==> exists|i: int|
                {
                    let oldv = old(self).runs@[i].run@;
                    let newv = final(self).runs@[i].run@;
                    let oldlog = old(self).runs@[i].events@;
                    let newlog = final(self).runs@[i].events@;
                    &&& 0 <= i < old(self).runs@.len()
                    &&& (#[trigger] old(self).runs@[i]).run.run_id@ == run_id@
                    &&& oldv.status == RunStatus::Running
                    &&& newv.status == RunStatus::Failed
                    &&& newv.run_id == oldv.run_id
                    &&& newv.workflow == oldv.workflow
                    &&& newv.input == oldv.input
                    &&& newv.context == oldv.context
                    &&& newv.trace_id == oldv.trace_id
                    &&& newv.tenant_id == oldv.tenant_id
                    &&& newv.output is None
                    &&& newv.artifacts.len() == 0
                    &&& newv.error == Option::Some(
                        crate::types::ErrorResponseV {
                            code: "workflow_error"@,
                            message: crate::types::agent_error_message(error@),
                            retryable: crate::types::agent_error_retryable(error@),
                            details: Option::None,
                        },
                    )
                    &&& newv.timing.created_at == oldv.timing.created_at
                    &&& newv.timing.started_at == oldv.timing.started_at
                    &&& match (newv.timing.started_at, newv.timing.finished_at, newv.timing.wall_ms) {
                        (Option::Some(st), Option::Some(f), Option::Some(w)) => f >= st && w == f
                            - st,
                        _ => false,
                    }
                    &&& newlog.len() == oldlog.len() + 2
                    &&& forall|j: int| 0 <= j < oldlog.len() ==> #[trigger] newlog[j] == oldlog[j]
                    &&& is_step_failed(newlog[oldlog.len() as int]@, run_id@)
                    &&& is_run_failed(newlog[oldlog.len() as int + 1]@, run_id@)
                    &&& final(self).runs@[i].subscribers == old(self).runs@[i].subscribers
                    &&& forall|j: int|
                        0 <= j < old(self).runs@.len() && j != i
                            ==> #[trigger] final(self).runs@[j] == old(self).runs@[j]
                },
    {
        match self.find_run(run_id) {
            Option::Some(i) => {
                let running = match self.runs[i].run.status {
                    RunStatus::Running => true,
                    _ => false,
                };
                if !running {
                    proof {
                        assert forall|a: int|
                            0 <= a < old(self).runs@.len() && (#[trigger] old(self).runs@[a]).run.run_id@
                                == run_id@ implies old(self).runs@[a].run@.status
                            != RunStatus::Running by {
                            assert(a == i as int);
                        }
                    }
                    return false;
                }
                proof {
                    assert(record_wf(self.runs@[i as int], self.next_sub_id));
                }
                let envelope = ErrorResponse {
                    code: String::from_str("workflow_error"),
                    message: error.message(),
                    retryable: error.retryable(),
                    details: Option::None,
                };
                let started = match self.runs[i].run.timing.started_at {
                    Option::Some(st) => st,
                    Option::None => 0,
                };
                proof {
                    assert(self.runs@[i as int].run@.timing.started_at == Option::Some(started));
                    assert(started >= self.runs@[i as int].run@.timing.created_at >= 0);
                }
                let now = now_ms();
                let finished: i64 = if now < started {
                    started
                } else {
                    now
                };
                let wall: i64 = finished - started;
                let record = &mut self.runs[i];
                record.run.status = RunStatus::Failed;
                record.run.error = Option::Some(envelope);
                record.run.timing.finished_at = Option::Some(finished);
                record.run.timing.wall_ms = Option::Some(wall);
                proof {
                    assert forall|a: int|
                        0 <= a < self.runs@.len() implies (#[trigger] self.runs@[a]).run.run_id@
                        == old(self).runs@[a].run.run_id@ by {
                        if a != i {
                            assert(self.runs@[a] == old(self).runs@[a]);
                        }
                    }
                    assert forall|a: int|
                        0 <= a < self.runs@.len() implies record_wf(
                        #[trigger] self.runs@[a],
                        self.next_sub_id,
                    ) by {
                        if a != i {
                            assert(record_wf(old(self).runs@[a], old(self).next_sub_id));
                            assert(self.runs@[a] == old(self).runs@[a]);
                        }
                    }
                }
                let fail_json = crate::json::obj1("ok", JsonValue::Bool(false));
                self.emit_event(
                    i,
                    EventType::StepFailed,
                    Option::Some(String::from_str("workflow.run")),
                    fail_json,
                );
                let status_json = crate::json::obj1(
                    "status",
                    JsonValue::Str(String::from_str("failed")),
                );
                self.emit_event(i, EventType::RunFailed, Option::None, status_json);
                true
            },
            Option::None => {
                proof {
                    assert forall|a: int|
                        0 <= a < old(self).runs@.len() implies (#[trigger] old(self).runs@[a]).run.run_id@
                        != run_id@ by {
                        if old(self).runs@[a].run.run_id@ == run_id@ {
                            assert(old(self).has_run(run_id@));
                        }
                    }
                }
                false
            },
        }
    }

}

/// Two concatenations with the same prefix have equal suffixes.
pub proof fn lemma_prefix_cancel(p: Seq<char>, x: Seq<char>, y: Seq<char>)
    requires
        p + x == p + y,
    ensures
        x == y,
{
    assert((p + x).len() == p.len() + x.len());
    assert((p + y).len() == p.len() + y.len());
    assert(x.len() == y.len());
    assert forall|i: int| 0 <= i < x.len() implies x[i] == y[i] by {
        assert((p + x)[p.len() + i] == x[i]);
        assert((p + y)[p.len() + i] == y[i]);
    }
    assert(x =~= y);
}

/// A `run_` identifier built from a 36-character draw with a hyphen
/// inside never collides with a counter-form identifier, whose tail is
/// all digits.
pub proof fn lemma_uuid_id_not_counter(u: Seq<char>, k: nat)
    requires
        u.len() == 36,
        u[8] == '-',
    ensures
        "run_"@ + u != run_counter_id(k),
{
    reveal_strlit("run_");
    let a = "run_"@ + u;
    let b = run_counter_id(k);
    if a == b {
        lemma_dec_digits_are_digits(k);
        assert(a.len() == 4 + 36);
        assert(b.len() == 4 + dec_digits(k).len());
        assert(dec_digits(k).len() == 36);
        assert(a[12] == u[8]);
        assert(b[12] == dec_digits(k)[8]);
        assert(is_digit_char(dec_digits(k)[8]));
        assert(!is_digit_char('-'));
        assert(false);
    }
}



/// Payload of a `run.started` event: the resolved workflow name and
/// version.
pub open spec fn run_started_payload(wf_name: Seq<char>, wf_version: Option<Seq<char>>) -> Json {
    Json::Obj(
        seq![
            (
                "workflow"@,
                Json::Obj(
                    seq![
                        ("name"@, Json::Str(wf_name)),
                        ("version"@, crate::types::json_opt_string(wf_version)),
                    ],
                ),
            ),
        ],
    )
}

/// Payload of the step events on success and failure: `{"ok": ...}`.
pub open spec fn ok_payload(ok: bool) -> Json {
    Json::Obj(seq![("ok"@, Json::Bool(ok))])
}

/// Payload of the terminal run events: `{"status": ...}`.
pub open spec fn status_payload(status: Seq<char>) -> Json {
    Json::Obj(seq![("status"@, Json::Str(status))])
}

/// Payload of an `artifact.created` event: the stored artifact's id.
pub open spec fn artifact_payload(artifact_id: Seq<char>) -> Json {
    Json::Obj(seq![("artifact_id"@, Json::Str(artifact_id))])
}

/// The shape of the event the engine emits when a run starts.
pub open spec fn is_run_started(
    e: crate::types::EventV,
    run_id: Seq<char>,
    wf_name: Seq<char>,
    wf_version: Option<Seq<char>>,
) -> bool {
    &&& e.event_type == EventType::RunStarted
    &&& e.run_id == run_id
    &&& e.step_id is None
    &&& e.tool_name is None
    &&& e.payload == run_started_payload(wf_name, wf_version)
}

/// The shape of the `step.started` event of the single engine step.
pub open spec fn is_step_started(e: crate::types::EventV, run_id: Seq<char>) -> bool {
    &&& e.event_type == EventType::StepStarted
    &&& e.run_id == run_id
    &&& e.step_id == Option::Some("workflow.run"@)
    &&& e.tool_name is None
    &&& e.payload == Json::Obj(Seq::empty())
}

/// The shape of an `artifact.created` event.
pub open spec fn is_artifact_created(
    e: crate::types::EventV,
    run_id: Seq<char>,
    artifact_id: Seq<char>,
) -> bool {
    &&& e.event_type == EventType::ArtifactCreated
    &&& e.run_id == run_id
    &&& e.step_id is None
    &&& e.tool_name is None
    &&& e.payload == artifact_payload(artifact_id)
}

/// The shape of the `step.completed` event.
pub open spec fn is_step_completed(e: crate::types::EventV, run_id: Seq<char>) -> bool {
    &&& e.event_type == EventType::StepCompleted
    &&& e.run_id == run_id
    &&& e.step_id == Option::Some("workflow.run"@)
    &&& e.tool_name is None
    &&& e.payload == ok_payload(true)
}

/// The shape of the `run.completed` event.
pub open spec fn is_run_completed(e: crate::types::EventV, run_id: Seq<char>) -> bool {
    &&& e.event_type == EventType::RunCompleted
    &&& e.run_id == run_id
    &&& e.step_id is None
    &&& e.tool_name is None
    &&& e.payload == status_payload("succeeded"@)
}

/// The shape of the `step.failed` event.
pub open spec fn is_step_failed(e: crate::types::EventV, run_id: Seq<char>) -> bool {
    &&& e.event_type == EventType::StepFailed
    &&& e.run_id == run_id
    &&& e.step_id == Option::Some("workflow.run"@)
    &&& e.tool_name is None
    &&& e.payload == ok_payload(false)
}

/// The shape of the `run.failed` event.
pub open spec fn is_run_failed(e: crate::types::EventV, run_id: Seq<char>) -> bool {
    &&& e.event_type == EventType::RunFailed
    &&& e.run_id == run_id
    &&& e.step_id is None
    &&& e.tool_name is None
    &&& e.payload == status_payload("failed"@)
}

/// The model of a schema list: the keys and schema models in order.
pub open spec fn schemas_model(s: Seq<(String, JsonValue)>) -> Seq<(Seq<char>, Json)>
    decreases s,
{
    if s.len() == 0 {
        Seq::empty()
    } else {
        schemas_model(s.drop_last()).push((s.last().0@, s.last().1@))
    }
}

pub proof fn lemma_schemas_model(s: Seq<(String, JsonValue)>)
    ensures
        schemas_model(s).len() == s.len(),
        forall|i: int|
            0 <= i < s.len() ==> schemas_model(s)[i] == ((#[trigger] s[i]).0@, s[i].1@),
    decreases s.len(),
{
    if s.len() > 0 {
        lemma_schemas_model(s.drop_last());
        assert forall|i: int| 0 <= i < s.len() implies schemas_model(s)[i] == ((#[trigger] s[i]).0@,
        s[i].1@) by {
            if i < s.len() - 1 {
                assert(schemas_model(s.drop_last())[i] == (s.drop_last()[i].0@, s.drop_last()[i].1@));
                assert(s.drop_last()[i] == s[i]);
            } else {
                assert(schemas_model(s)[i] == (s.last().0@, s.last().1@));
            }
        }
    }
}

/// The schema list a bundle is expected to carry for the given optional
/// schemas: `input` first, then `output`, absent ones skipped.
pub open spec fn schemas_model_of(input: Option<Json>, output: Option<Json>) -> Seq<
    (Seq<char>, Json),
> {
    (match input {
        Option::Some(v) => seq![("input"@, v)],
        Option::None => Seq::empty(),
    }) + (match output {
        Option::Some(v) => seq![("output"@, v)],
        Option::None => Seq::empty(),
    })
}

} // verus!
