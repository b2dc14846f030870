use codex_logic::legacy_notify::bounded_legacy_notify_json;
use codex_logic::legacy_notify::fits_legacy_notify_arg;
use codex_logic::legacy_notify::frame_agent_turn_complete;
use codex_logic::legacy_notify::legacy_notify_command_argv;
use codex_logic::legacy_notify::legacy_notify_json;
use codex_logic::legacy_notify::truncate_for_argv;
use codex_logic::legacy_notify::HookEvent;
use codex_logic::legacy_notify::HookEventAfterAgent;
use codex_logic::legacy_notify::HookPayload;
use codex_logic::legacy_notify::UserNotification;
use codex_logic::legacy_notify::LEGACY_NOTIFY_ARG_MAX_BYTES;
use codex_logic::legacy_notify::LEGACY_NOTIFY_MESSAGE_MAX_BYTES;

use serde_json::Value;

fn s(v: &str) -> Value {
    Value::String(v.to_string())
}

fn expected_notification_json() -> Value {
    let mut m = serde_json::Map::new();
    m.insert("type".to_string(), s("agent-turn-complete"));
    m.insert("thread-id".to_string(), s("b5f6c1c2-1111-2222-3333-444455556666"));
    m.insert("turn-id".to_string(), s("12345"));
    m.insert("cwd".to_string(), s("/Users/example/project"));
    m.insert("client".to_string(), s("codex-tui"));
    m.insert(
        "input-messages".to_string(),
        Value::Array(vec![s("Rename `foo` to `bar` and update the callsites.")]),
    );
    m.insert(
        "last-assistant-message".to_string(),
        s("Rename complete and verified `cargo build` succeeds."),
    );
    Value::Object(m)
}

fn payload(client: &str, input_messages: Vec<String>, last: Option<String>) -> HookPayload {
    HookPayload {
        cwd: "/Users/example/project".to_string(),
        client: Some(client.to_string()),
        hook_event: HookEvent::AfterAgent {
            event: HookEventAfterAgent {
                thread_id: "b5f6c1c2-1111-2222-3333-444455556666".to_string(),
                turn_id: "12345".to_string(),
                input_messages,
                last_assistant_message: last,
            },
        },
    }
}

fn ok(r: Result<String, codex_logic::legacy_notify::LegacyNotifyError>) -> String {
    match r {
        Ok(v) => v,
        Err(_) => panic!("serialization failed"),
    }
}

#[test]
fn test_user_notification() {
    let notification = UserNotification::AgentTurnComplete {
        thread_id: "b5f6c1c2-1111-2222-3333-444455556666".to_string(),
        turn_id: "12345".to_string(),
        cwd: "/Users/example/project".to_string(),
        client: Some("codex-tui".to_string()),
        input_messages: vec!["Rename `foo` to `bar` and update the callsites.".to_string()],
        last_assistant_message: Some(
            "Rename complete and verified `cargo build` succeeds.".to_string(),
        ),
    };
    let serialized = ok(notification.to_json());
    let actual: Value = serde_json::from_str(&serialized).expect("valid json");
    assert_eq!(actual, expected_notification_json());
}

#[test]
fn legacy_notify_json_matches_historical_wire_shape() {
    let payload = payload(
        "codex-tui",
        vec!["Rename `foo` to `bar` and update the callsites.".to_string()],
        Some("Rename complete and verified `cargo build` succeeds.".to_string()),
    );

    let serialized = ok(legacy_notify_json(&payload));
    let actual: Value = serde_json::from_str(&serialized).expect("valid json");
    assert_eq!(actual, expected_notification_json());
}

#[test]
fn bounded_legacy_notify_json_caps_large_argv_payload() {
    let payload = payload(
        "codex-app",
        vec!["user input ".repeat(16 * 1024); 4],
        Some("assistant output ".repeat(16 * 1024)),
    );

    let serialized = ok(bounded_legacy_notify_json(&payload));
    let actual: Value = serde_json::from_str(&serialized).expect("valid json");

    assert!(serialized.len() <= LEGACY_NOTIFY_ARG_MAX_BYTES);
    assert_eq!(actual["type"], s("agent-turn-complete"));
    assert_eq!(actual["thread-id"], s("b5f6c1c2-1111-2222-3333-444455556666"));
    assert_eq!(actual["turn-id"], s("12345"));
    assert_eq!(actual["cwd"], s("/Users/example/project"));
    assert_eq!(actual["client"], s("codex-app"));
    let input_messages = actual["input-messages"]
        .as_array()
        .expect("input messages is an array");
    assert!(input_messages.len() <= 1);
    assert!(input_messages.iter().all(|message| {
        message
            .as_str()
            .is_some_and(|message| message.len() <= LEGACY_NOTIFY_MESSAGE_MAX_BYTES)
    }));
    assert!(actual["last-assistant-message"]
        .as_str()
        .is_none_or(|message| message.len() <= LEGACY_NOTIFY_MESSAGE_MAX_BYTES));
    assert!(
        ok(legacy_notify_json(&payload)).len() > LEGACY_NOTIFY_ARG_MAX_BYTES,
        "test payload should reproduce an overlarge legacy argv argument"
    );
    let mut unbounded = serde_json::Map::new();
    unbounded.insert("type".to_string(), s("agent-turn-complete"));
    unbounded.insert("thread-id".to_string(), s("b5f6c1c2-1111-2222-3333-444455556666"));
    unbounded.insert("turn-id".to_string(), s("12345"));
    unbounded.insert("cwd".to_string(), s("/Users/example/project"));
    unbounded.insert("client".to_string(), s("codex-app"));
    unbounded.insert(
        "input-messages".to_string(),
        Value::Array(vec![s(&"user input ".repeat(16 * 1024)); 4]),
    );
    unbounded.insert(
        "last-assistant-message".to_string(),
        s(&"assistant output ".repeat(16 * 1024)),
    );
    assert_ne!(actual, Value::Object(unbounded));
}

#[test]
fn short_messages_are_not_truncated() {
    assert_eq!(truncate_for_argv("hello"), "hello");
    let exact = "a".repeat(LEGACY_NOTIFY_MESSAGE_MAX_BYTES);
    assert_eq!(truncate_for_argv(&exact), exact);
    assert_eq!(truncate_for_argv(""), "");
}

#[test]
fn long_ascii_message_keeps_prefix_and_marker() {
    let long = "a".repeat(LEGACY_NOTIFY_MESSAGE_MAX_BYTES + 1);
    let t = truncate_for_argv(&long);
    assert_eq!(t, format!("{}...", "a".repeat(LEGACY_NOTIFY_MESSAGE_MAX_BYTES - 3)));
    assert_eq!(t.len(), LEGACY_NOTIFY_MESSAGE_MAX_BYTES);
}

#[test]
fn truncation_stops_at_char_boundary() {
    let long = "é".repeat(1100);
    let t = truncate_for_argv(&long);
    assert_eq!(t, format!("{}...", "é".repeat(1022)));
    assert_eq!(t.len(), 2047);
}

#[test]
fn truncation_is_idempotent() {
    let long = "xyz€".repeat(1000);
    let once = truncate_for_argv(&long);
    assert_eq!(truncate_for_argv(&once), once);
}

#[test]
fn bounded_payload_is_legacy_payload_when_it_fits() {
    let p = payload("codex-tui", vec!["hi \"there\"\n".to_string()], None);
    let bounded = ok(bounded_legacy_notify_json(&p));
    assert_eq!(bounded, ok(legacy_notify_json(&p)));
    assert_eq!(
        bounded,
        "{\"type\":\"agent-turn-complete\",\"thread-id\":\"b5f6c1c2-1111-2222-3333-444455556666\",\"turn-id\":\"12345\",\"cwd\":\"/Users/example/project\",\"client\":\"codex-tui\",\"input-messages\":[\"hi \\\"there\\\"\\n\"],\"last-assistant-message\":null}"
    );
}

#[test]
fn missing_client_is_omitted() {
    let mut p = payload("x", vec![], Some("done".to_string()));
    p.client = None;
    let json = ok(legacy_notify_json(&p));
    let v: Value = serde_json::from_str(&json).expect("valid json");
    assert!(v.get("client").is_none());
    assert_eq!(v["input-messages"], Value::Array(vec![]));
    assert_eq!(v["last-assistant-message"], s("done"));
}

#[test]
fn bounded_payload_keeps_first_message_when_that_fits() {
    let p = payload(
        "codex-app",
        vec!["a".repeat(2000), "b".repeat(2000), "c".repeat(2000), "d".repeat(2000)],
        Some("e".repeat(100)),
    );
    let json = ok(bounded_legacy_notify_json(&p));
    let v: Value = serde_json::from_str(&json).expect("valid json");
    assert_eq!(v["input-messages"], Value::Array(vec![s(&"a".repeat(2000))]));
    assert_eq!(v["last-assistant-message"], s(&"e".repeat(100)));
}

#[test]
fn notify_argv_appends_payload() {
    let p = payload("codex-tui", vec!["hi".to_string()], None);
    let argv = vec!["notify-send".to_string(), "--flag".to_string()];
    let full = legacy_notify_command_argv(&argv, &p).expect("argv has a program");
    assert_eq!(full.len(), 3);
    assert_eq!(full[0], "notify-send");
    assert_eq!(full[1], "--flag");
    assert_eq!(full[2], ok(bounded_legacy_notify_json(&p)));
    assert!(legacy_notify_command_argv(&Vec::new(), &p).is_none());
}

#[test]
fn frame_places_encoded_fields_in_wire_order() {
    let framed = frame_agent_turn_complete(
        "\"t\"",
        "\"u\"",
        "\"/c\"",
        &Some("\"cl\"".to_string()),
        &vec!["\"a\"".to_string(), "\"b\"".to_string()],
        &None,
    );
    assert_eq!(
        framed,
        "{\"type\":\"agent-turn-complete\",\"thread-id\":\"t\",\"turn-id\":\"u\",\"cwd\":\"/c\",\"client\":\"cl\",\"input-messages\":[\"a\",\"b\"],\"last-assistant-message\":null}"
    );
    let framed = frame_agent_turn_complete("1", "2", "3", &None, &vec![], &Some("4".to_string()));
    assert_eq!(
        framed,
        "{\"type\":\"agent-turn-complete\",\"thread-id\":1,\"turn-id\":2,\"cwd\":3,\"input-messages\":[],\"last-assistant-message\":4}"
    );
}

#[test]
fn payload_fits_at_exactly_the_limit() {
    assert!(fits_legacy_notify_arg(&"x".repeat(LEGACY_NOTIFY_ARG_MAX_BYTES)));
    assert!(!fits_legacy_notify_arg(&"x".repeat(LEGACY_NOTIFY_ARG_MAX_BYTES + 1)));
    assert!(!fits_legacy_notify_arg(&"é".repeat(LEGACY_NOTIFY_ARG_MAX_BYTES / 2 + 1)));
}

#[test]
fn strings_are_encoded_with_json_escapes() {
    assert_eq!(
        codex_logic::json::encode_string("a\"b\\c\n\t\u{8}\u{c}\r\u{1}\u{1f}é"),
        "\"a\\\"b\\\\c\\n\\t\\b\\f\\r\\u0001\\u001fé\""
    );
    assert_eq!(codex_logic::json::encode_string(""), "\"\"");
    assert_eq!(
        codex_logic::json::encode_optional(&Some("x/y".to_string())),
        Some("\"x/y\"".to_string())
    );
    assert_eq!(codex_logic::json::encode_optional(&None), None);
    assert_eq!(
        codex_logic::json::encode_strings(&vec!["a".to_string(), "\u{7f}".to_string()]),
        vec!["\"a\"".to_string(), "\"\u{7f}\"".to_string()]
    );
}

#[test]
fn bounded_payload_with_control_characters_is_valid_json() {
    let p = payload(
        "cli\u{0}ent",
        vec!["line\none".to_string(), "tab\there".to_string()],
        Some("quote \" and \\".to_string()),
    );
    let json = ok(bounded_legacy_notify_json(&p));
    let value: Value = serde_json::from_str(&json).expect("valid json");
    assert_eq!(value["client"], s("cli\u{0}ent"));
    assert_eq!(value["input-messages"][0], s("line\none"));
    assert_eq!(value["last-assistant-message"], s("quote \" and \\"));
}

#[test]
fn encoded_strings_read_back_unchanged() {
    for text in ["", "plain", "q\"b\\s/", "\u{0}\u{1f}\u{7f}\n\r\t", "中文 🚀"] {
        let encoded = codex_logic::json::encode_string(text);
        let decoded: String = serde_json::from_str(&encoded).expect("valid json string");
        assert_eq!(decoded, text);
    }
}
