use agent_runtime::json::JsonValue;
use agent_runtime::runtime::InMemoryRuntime;
use agent_runtime::types::{AgentError, EventType, RunCreateRequest, RunStatus, WorkflowRef};
use agent_runtime::workflows::EchoWorkflow;

fn registered_runtime() -> InMemoryRuntime {
    let mut rt = InMemoryRuntime::new();
    let echo = EchoWorkflow;
    rt.register_workflow_with_schemas(
        echo.name(),
        echo.version(),
        Some(JsonValue::Obj(vec![(
            "type".to_string(),
            JsonValue::Str("object".to_string()),
        )])),
        None,
    );
    rt
}

fn echo_request(input: JsonValue) -> RunCreateRequest {
    RunCreateRequest {
        workflow: WorkflowRef {
            name: "echo".to_string(),
            version: Some("0.1.0".to_string()),
        },
        input,
        context: None,
        metadata: None,
        labels: None,
    }
}

fn hello_world() -> JsonValue {
    JsonValue::Obj(vec![(
        "hello".to_string(),
        JsonValue::Str("world".to_string()),
    )])
}

#[test]
fn submit_returns_queued_with_fresh_run_id() {
    let mut rt = registered_runtime();
    let run1 = rt.create_run(echo_request(hello_world())).expect("create");
    let run2 = rt.create_run(echo_request(hello_world())).expect("create");
    assert!(matches!(run1.status, RunStatus::Queued));
    assert!(matches!(run2.status, RunStatus::Queued));
    assert_ne!(run1.run_id, run2.run_id);
    assert!(run1.run_id.starts_with("run_"));
    assert!(run1.timing.started_at.is_none());
    assert!(run1.timing.finished_at.is_none());
    assert!(run1.timing.wall_ms.is_none());
    let fetched = rt.get_run(&run1.run_id).expect("run exists");
    assert!(matches!(fetched.status, RunStatus::Queued));
}

fn run_echo_to_completion(rt: &mut InMemoryRuntime, run_id: &str) {
    let (_wf, input) = rt.begin_run(run_id).expect("begin");
    let echo = EchoWorkflow;
    let out = echo.run(&input.expect("input captured"));
    assert!(rt.finish_run_success(run_id, out.output, &out.artifacts));
}

#[test]
fn success_event_sequence_is_exact() {
    let mut rt = registered_runtime();
    let run = rt.create_run(echo_request(hello_world())).expect("create");
    run_echo_to_completion(&mut rt, &run.run_id);
    let events = rt.list_events(&run.run_id).expect("run exists");
    let types: Vec<EventType> = events.iter().map(|e| e.event_type).collect();
    assert_eq!(
        types,
        vec![
            EventType::RunStarted,
            EventType::StepStarted,
            EventType::ArtifactCreated,
            EventType::StepCompleted,
            EventType::RunCompleted,
        ]
    );
    assert_eq!(events[1].step_id.as_deref(), Some("workflow.run"));
    for e in &events {
        assert_eq!(e.run_id, run.run_id);
    }
}

#[test]
fn failure_event_sequence_is_exact() {
    let mut rt = registered_runtime();
    let run = rt.create_run(echo_request(hello_world())).expect("create");
    rt.begin_run(&run.run_id).expect("begin");
    let failed = rt.finish_run_failure(&run.run_id, &AgentError::Fatal("boom".to_string()));
    assert!(failed);
    let events = rt.list_events(&run.run_id).expect("run exists");
    let types: Vec<EventType> = events.iter().map(|e| e.event_type).collect();
    assert_eq!(
        types,
        vec![
            EventType::RunStarted,
            EventType::StepStarted,
            EventType::StepFailed,
            EventType::RunFailed,
        ]
    );
    assert!(types
        .iter()
        .all(|t| !matches!(t, EventType::ArtifactCreated)));
    let fetched = rt.get_run(&run.run_id).expect("run exists");
    assert!(matches!(fetched.status, RunStatus::Failed));
    let err = fetched.error.expect("error recorded");
    assert_eq!(err.code, "workflow_error");
    assert_eq!(err.message, "fatal: boom");
    assert!(!err.retryable);
}

#[test]
fn retryable_flag_is_forwarded() {
    let mut rt = registered_runtime();
    let run = rt.create_run(echo_request(hello_world())).expect("create");
    rt.begin_run(&run.run_id).expect("begin");
    assert!(rt.finish_run_failure(&run.run_id, &AgentError::Retryable("later".to_string())));
    let fetched = rt.get_run(&run.run_id).expect("run exists");
    let err = fetched.error.expect("error recorded");
    assert!(err.retryable);
    assert_eq!(err.message, "retryable: later");
}

#[test]
fn read_log_matches_live_subscription() {
    let mut rt = registered_runtime();
    let run = rt.create_run(echo_request(hello_world())).expect("create");
    let sub = rt.subscribe_events(&run.run_id).expect("run exists");
    run_echo_to_completion(&mut rt, &run.run_id);
    let (live, dropped) = rt.poll_events(&run.run_id, sub).expect("subscriber");
    assert_eq!(dropped, 0);
    let log = rt.list_events(&run.run_id).expect("run exists");
    assert_eq!(live.len(), log.len());
    for (a, b) in live.iter().zip(log.iter()) {
        assert_eq!(a.event_id, b.event_id);
        assert_eq!(a.event_type, b.event_type);
        assert!(a.payload.equals(&b.payload));
    }
}

#[test]
fn late_subscriber_receives_zero_events() {
    let mut rt = registered_runtime();
    let run = rt.create_run(echo_request(hello_world())).expect("create");
    run_echo_to_completion(&mut rt, &run.run_id);
    let sub = rt.subscribe_events(&run.run_id).expect("run exists");
    let (live, dropped) = rt.poll_events(&run.run_id, sub).expect("subscriber");
    assert!(live.is_empty());
    assert_eq!(dropped, 0);
}

#[test]
fn lagging_subscriber_drops_oldest_and_reports_lag() {
    let mut rt = registered_runtime();
    let run = rt.create_run(echo_request(hello_world())).expect("create");
    let sub = rt.subscribe_events(&run.run_id).expect("run exists");
    let (_wf, input) = rt.begin_run(&run.run_id).expect("begin");
    let echo = EchoWorkflow;
    let one = echo.run(&input.expect("input captured"));
    // many artifacts, so the log outgrows the channel window
    let mut artifacts = Vec::new();
    for _ in 0..150 {
        artifacts.push(one.artifacts[0].duplicate());
    }
    assert!(rt.finish_run_success(&run.run_id, one.output, &artifacts));
    let log = rt.list_events(&run.run_id).expect("run exists");
    assert_eq!(log.len(), 154);
    let (live, dropped) = rt.poll_events(&run.run_id, sub).expect("subscriber");
    assert_eq!(dropped, 54);
    assert_eq!(live.len(), 100);
    assert_eq!(live[0].event_id, log[54].event_id);
    assert_eq!(live[99].event_id, log[153].event_id);
}

#[test]
fn unknown_workflow_is_rejected_without_creating_state() {
    let mut rt = registered_runtime();
    let mut req = echo_request(hello_world());
    req.workflow.name = "missing".to_string();
    let err = rt.create_run(req).expect_err("must fail");
    assert_eq!(err.code, "workflow_not_found");
    assert_eq!(err.message, "workflow missing not registered");
    assert!(!err.retryable);
    assert!(err.details.is_none());
}

#[test]
fn begin_run_requires_a_queued_run() {
    let mut rt = registered_runtime();
    let run = rt.create_run(echo_request(hello_world())).expect("create");
    assert!(rt.begin_run(&run.run_id).is_some());
    // a second begin finds the run already running
    assert!(rt.begin_run(&run.run_id).is_none());
    assert!(rt.begin_run("run_missing").is_none());
}

#[test]
fn echo_end_to_end() {
    let mut rt = registered_runtime();
    let run = rt.create_run(echo_request(hello_world())).expect("create");
    run_echo_to_completion(&mut rt, &run.run_id);
    let fetched = rt.get_run(&run.run_id).expect("run exists");
    assert!(matches!(fetched.status, RunStatus::Succeeded));
    let expected = JsonValue::Obj(vec![("echo".to_string(), hello_world())]);
    assert!(fetched.output.expect("output set").equals(&expected));
    assert_eq!(fetched.artifacts.len(), 1);
    assert!(matches!(
        fetched.artifacts[0].artifact_type,
        agent_runtime::types::ArtifactType::Record
    ));
    let timing = fetched.timing;
    let started = timing.started_at.expect("started");
    let finished = timing.finished_at.expect("finished");
    assert!(timing.created_at <= started);
    assert!(started <= finished);
    assert_eq!(timing.wall_ms.expect("wall"), finished - started);
    let art = rt
        .get_artifact(&fetched.artifacts[0].artifact_id)
        .expect("artifact stored");
    assert!(art.data.expect("data").equals(&expected));
}

#[test]
fn get_run_not_found() {
    let rt = registered_runtime();
    assert!(rt.get_run("run_missing").is_none());
    assert!(rt.list_events("run_missing").is_none());
}

#[test]
fn get_artifact_not_found() {
    let rt = registered_runtime();
    assert!(rt.get_artifact("art_missing").is_none());
}

#[test]
fn list_workflows_returns_registered() {
    let mut rt = registered_runtime();
    rt.register_workflow("meeting-todo".to_string(), Some("0.1.0".to_string()));
    let list = rt.list_workflows();
    assert_eq!(list.len(), 2);
    assert_eq!(list[0].name, "echo");
    assert_eq!(list[0].version.as_deref(), Some("0.1.0"));
    assert!(list[0].tags.is_empty());
    assert_eq!(list[1].name, "meeting-todo");
}

#[test]
fn get_workflow_returns_registered() {
    let rt = registered_runtime();
    let wf = rt.get_workflow("echo").expect("registered");
    assert_eq!(wf.name, "echo");
    assert_eq!(wf.version.as_deref(), Some("0.1.0"));
    assert!(rt.get_workflow("missing").is_none());
}

#[test]
fn register_overwrites_under_same_name() {
    let mut rt = registered_runtime();
    rt.register_workflow("echo".to_string(), Some("0.2.0".to_string()));
    let list = rt.list_workflows();
    assert_eq!(list.len(), 1);
    assert_eq!(list[0].version.as_deref(), Some("0.2.0"));
}
