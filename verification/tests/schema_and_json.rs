use agent_runtime::json::{canonical_bytes, JsonValue};
use agent_runtime::runtime::InMemoryRuntime;
use agent_runtime::schema_hash::{bytes_to_hex, schema_hash};

fn schema_a() -> JsonValue {
    JsonValue::Obj(vec![(
        "type".to_string(),
        JsonValue::Str("object".to_string()),
    )])
}

fn schema_b() -> JsonValue {
    JsonValue::Obj(vec![(
        "type".to_string(),
        JsonValue::Str("array".to_string()),
    )])
}

#[test]
fn canonical_bytes_render_json_compactly() {
    let v = JsonValue::Obj(vec![
        ("a".to_string(), JsonValue::Int(-42)),
        ("b".to_string(), JsonValue::Bool(true)),
        (
            "c".to_string(),
            JsonValue::Arr(vec![JsonValue::Null, JsonValue::Str("x\"y\n".to_string())]),
        ),
    ]);
    let bytes = canonical_bytes(&v);
    let text = String::from_utf8(bytes).expect("utf8");
    assert_eq!(text, "{\"a\":-42,\"b\":true,\"c\":[null,\"x\\\"y\\n\"]}");
}

#[test]
fn canonical_bytes_keep_unicode() {
    let v = JsonValue::Str("会议纪要".to_string());
    let bytes = canonical_bytes(&v);
    let text = String::from_utf8(bytes).expect("utf8");
    assert_eq!(text, "\"会议纪要\"");
}

#[test]
fn schema_hash_is_stable_across_registrations() {
    let h1 = schema_hash(&Some(schema_a()), &Some(schema_b()));
    let h2 = schema_hash(&Some(schema_a()), &Some(schema_b()));
    assert_eq!(h1, h2);
    assert_eq!(h1.len(), 64);
    let mut rt = InMemoryRuntime::new();
    rt.register_workflow_with_schemas(
        "echo".to_string(),
        None,
        Some(schema_a()),
        Some(schema_b()),
    );
    let bundle1 = rt.get_workflow_schemas("echo").expect("registered");
    rt.register_workflow_with_schemas(
        "echo".to_string(),
        None,
        Some(schema_a()),
        Some(schema_b()),
    );
    let bundle2 = rt.get_workflow_schemas("echo").expect("registered");
    assert_eq!(bundle1.schema_hash, bundle2.schema_hash);
    assert_eq!(bundle1.schemas.len(), 2);
    assert_eq!(bundle1.schemas[0].0, "input");
    assert_eq!(bundle1.schemas[1].0, "output");
}

#[test]
fn schema_hash_changes_when_bytes_change() {
    let h1 = schema_hash(&Some(schema_a()), &Some(schema_b()));
    let h2 = schema_hash(&Some(schema_b()), &Some(schema_b()));
    let h3 = schema_hash(&Some(schema_a()), &Some(schema_a()));
    assert_ne!(h1, h2);
    assert_ne!(h1, h3);
    let only_input = schema_hash(&Some(schema_a()), &None);
    let only_output = schema_hash(&None, &Some(schema_a()));
    assert_ne!(only_input, only_output);
}

#[test]
fn schema_hash_matches_reference_digest() {
    // the digest input for a lone input schema is "input" followed by the
    // canonical bytes of the schema
    let mut preimage: Vec<u8> = b"input".to_vec();
    preimage.extend_from_slice(&canonical_bytes(&schema_a()));
    let digest = <sha2::Sha256 as sha2::Digest>::digest(&preimage);
    let expected: String = digest
        .iter()
        .map(|b| format!("{:02x}", b))
        .collect::<Vec<String>>()
        .join("");
    assert_eq!(schema_hash(&Some(schema_a()), &None), expected);
}

#[test]
fn bytes_to_hex_renders_lowercase_pairs() {
    let bytes: Vec<u8> = vec![0x00, 0x0f, 0xa5, 0xff];
    assert_eq!(bytes_to_hex(&bytes), "000fa5ff");
}

#[test]
fn json_equals_is_deep() {
    let a = JsonValue::Obj(vec![(
        "k".to_string(),
        JsonValue::Arr(vec![JsonValue::Int(1), JsonValue::Int(2)]),
    )]);
    let b = JsonValue::Obj(vec![(
        "k".to_string(),
        JsonValue::Arr(vec![JsonValue::Int(1), JsonValue::Int(2)]),
    )]);
    let c = JsonValue::Obj(vec![(
        "k".to_string(),
        JsonValue::Arr(vec![JsonValue::Int(1), JsonValue::Int(3)]),
    )]);
    assert!(a.equals(&b));
    assert!(!a.equals(&c));
    assert!(!a.equals(&JsonValue::Null));
}

#[test]
fn json_get_finds_first_match() {
    let v = JsonValue::Obj(vec![
        ("x".to_string(), JsonValue::Int(1)),
        ("y".to_string(), JsonValue::Int(2)),
    ]);
    assert!(v.get("y").expect("present").equals(&JsonValue::Int(2)));
    assert!(v.get("z").is_none());
    assert!(JsonValue::Null.get("x").is_none());
}
