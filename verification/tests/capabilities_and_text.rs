use agent_runtime::json::JsonValue;
use agent_runtime::sse::{sse_event_type, sse_frame};
use agent_runtime::text::u64_to_string;
use agent_runtime::types::{event_type_name, EventType};
use agent_runtime::versions::{latest_active, SemVer, WorkflowSpec};
use agent_runtime::workflows::{extract_todos, MeetingTodoWorkflow};

#[test]
fn extract_todos_finds_marked_lines() {
    let minutes = "TODO: buy milk.\n- call Bob\nnothing here\nAction: send report..\n  * ship it \nAction item: file taxes\n- \n";
    let todos = extract_todos(minutes);
    let actions: Vec<String> = todos
        .iter()
        .map(|t| match t.get("action").expect("action key") {
            JsonValue::Str(s) => s.clone(),
            _ => panic!("action must be a string"),
        })
        .collect();
    assert_eq!(
        actions,
        vec![
            "buy milk".to_string(),
            "call Bob".to_string(),
            "send report".to_string(),
            "ship it".to_string(),
            "file taxes".to_string(),
        ]
    );
}

#[test]
fn extract_todos_ignores_empty_and_plain_lines() {
    assert!(extract_todos("").is_empty());
    assert!(extract_todos("just notes\nmore notes").is_empty());
    assert!(extract_todos("todo: ...").is_empty());
}

#[test]
fn meeting_todo_workflow_wraps_todos() {
    let wf = MeetingTodoWorkflow;
    assert_eq!(wf.name(), "meeting-todo");
    let input = JsonValue::Obj(vec![(
        "minutes".to_string(),
        JsonValue::Str("todo: one\n* two.".to_string()),
    )]);
    let out = wf.run(&input);
    let expected = JsonValue::Obj(vec![(
        "todos".to_string(),
        JsonValue::Arr(vec![
            JsonValue::Obj(vec![(
                "action".to_string(),
                JsonValue::Str("one".to_string()),
            )]),
            JsonValue::Obj(vec![(
                "action".to_string(),
                JsonValue::Str("two".to_string()),
            )]),
        ]),
    )]);
    assert!(out.output.equals(&expected));
    assert_eq!(out.artifacts.len(), 1);
    assert!(out.artifacts[0].artifact_id.starts_with("art_"));
    assert!(out.artifacts[0].data.as_ref().expect("data").equals(&expected));
}

#[test]
fn meeting_todo_without_minutes_yields_empty_list() {
    let wf = MeetingTodoWorkflow;
    let out = wf.run(&JsonValue::Null);
    let expected = JsonValue::Obj(vec![("todos".to_string(), JsonValue::Arr(vec![]))]);
    assert!(out.output.equals(&expected));
}

#[test]
fn sse_frame_renders_event_then_data() {
    let frame = sse_frame("run.started", "{\"x\":1}");
    assert_eq!(frame, "event: run.started\ndata: {\"x\":1}\n\n");
}

#[test]
fn sse_event_type_parses_a_frame_block() {
    assert_eq!(
        sse_event_type("event: run.completed\ndata: {}\n"),
        Some("run.completed")
    );
    assert_eq!(sse_event_type("data: {}\n"), None);
    assert_eq!(sse_event_type(""), None);
    assert_eq!(sse_event_type("id: 4\nevent:  step.failed \ndata: {}"), Some("step.failed"));
}

#[test]
fn event_type_names_match_the_wire_format() {
    assert_eq!(event_type_name(&EventType::RunStarted), "run.started");
    assert_eq!(event_type_name(&EventType::RunCompleted), "run.completed");
    assert_eq!(event_type_name(&EventType::RunFailed), "run.failed");
    assert_eq!(event_type_name(&EventType::StepStarted), "step.started");
    assert_eq!(event_type_name(&EventType::StepCompleted), "step.completed");
    assert_eq!(event_type_name(&EventType::StepFailed), "step.failed");
    assert_eq!(
        event_type_name(&EventType::ArtifactCreated),
        "artifact.created"
    );
}

#[test]
fn semver_parse_accepts_triples() {
    assert_eq!(SemVer::parse("1.2.3"), Some(SemVer(1, 2, 3)));
    assert_eq!(SemVer::parse("v10.0.7"), Some(SemVer(10, 0, 7)));
    assert_eq!(SemVer::parse("1.2.3.4"), Some(SemVer(1, 2, 3)));
    assert_eq!(SemVer::parse("1.2"), None);
    assert_eq!(SemVer::parse("1.2.x"), None);
    assert_eq!(SemVer::parse(""), None);
    assert_eq!(SemVer::parse("99999999999.0.0"), None);
    assert!(SemVer(1, 2, 3) < SemVer(1, 10, 0));
}

#[test]
fn workflow_spec_paths_join_under_base_dir() {
    let spec_desc = WorkflowSpec {
        workflow_id: "meeting_prebrief_daily".to_string(),
        version: "1.1.0".to_string(),
        input_schema: "input.schema.json".to_string(),
        output_schema: "output.schema.json".to_string(),
        thresholds: Some("thresholds.yml".to_string()),
        rules: None,
        status: Some("active".to_string()),
        base_dir: "workflows/v1.1.0".to_string(),
    };
    assert_eq!(
        spec_desc.input_schema_path(),
        "workflows/v1.1.0/input.schema.json"
    );
    assert_eq!(
        spec_desc.output_schema_path(),
        "workflows/v1.1.0/output.schema.json"
    );
    assert_eq!(
        spec_desc.thresholds_path().as_deref(),
        Some("workflows/v1.1.0/thresholds.yml")
    );
    assert!(spec_desc.rules_path().is_none());
}

#[test]
fn u64_rendering_matches_decimal() {
    assert_eq!(u64_to_string(0), "0");
    assert_eq!(u64_to_string(12345), "12345");
    assert_eq!(u64_to_string(u64::MAX), "18446744073709551615");
}

#[test]
fn latest_active_picks_highest_active_version() {
    let candidates = vec![
        (SemVer(1, 0, 0), true),
        (SemVer(2, 1, 0), false),
        (SemVer(1, 4, 2), true),
        (SemVer(1, 4, 2), true),
        (SemVer(0, 9, 9), true),
    ];
    assert_eq!(latest_active(&candidates), Some(2));
    let none_active = vec![(SemVer(3, 0, 0), false)];
    assert_eq!(latest_active(&none_active), None);
    assert_eq!(latest_active(&vec![]), None);
}
