//! Tests for the two-tier state store, message routing, and the supervisor.

use agent_runtime::agent::{Routed, parse_state_action};
use agent_runtime::supervisor::DispatchOutcome;
use agent_runtime::{
    AgentConfig, AgentId, AgentProcess, AgentState, AgentSupervisor, AgentType, InMemoryBackend,
    MemoryBackendType, Message, MockLLMProvider, StateAction,
};
use agent_runtime::value::Value;
use agent_runtime::MemoryBackend;

fn obj_a(pairs: Vec<(&str, Value)>) -> Value {
    let mut out: Vec<(String, Value)> = Vec::new();
    for (k, v) in pairs {
        out.push((k.to_string(), v));
    }
    Value::Obj(out)
}

fn str_a(s: &str) -> Value {
    Value::Str(s.to_string())
}

fn msg_a(id: &str, from: &str, to: &str, payload: Value) -> Message {
    Message {
        id: id.to_string(),
        from: AgentId(from.to_string()),
        to: AgentId(to.to_string()),
        payload,
        timestamp: 12345,
    }
}

fn generic_config(id: &str, llm: bool) -> AgentConfig {
    AgentConfig {
        id: AgentId(id.to_string()),
        memory_backend_type: MemoryBackendType::InMemory,
        nats_enabled: false,
        llm_enabled: llm,
        agent_type: AgentType::Generic,
    }
}

#[test]
fn test_message_creation() {
    let message = msg_a("test_msg", "sender", "receiver", obj_a(vec![("type", str_a("test"))]));
    assert_eq!(message.id, "test_msg");
    assert_eq!(message.from.0, "sender");
    assert_eq!(message.to.0, "receiver");
}

#[test]
fn agent_test_state_action_serialization() {
    let payload = obj_a(vec![(
        "Store",
        obj_a(vec![("key", str_a("test_key")), ("value", obj_a(vec![("data", str_a("test"))]))]),
    )]);
    match parse_state_action(&payload) {
        Some(StateAction::Store { key, value }) => {
            assert_eq!(key, "test_key");
            assert_eq!(value, obj_a(vec![("data", str_a("test"))]));
        },
        _ => panic!("Expected Store action"),
    }
}

#[test]
fn main_test_state_action_serialization() {
    let payload = obj_a(vec![(
        "Store",
        obj_a(vec![
            ("key", str_a("test_key")),
            ("value", obj_a(vec![("data", str_a("test_value"))])),
        ]),
    )]);
    match parse_state_action(&payload) {
        Some(StateAction::Store { key, value }) => {
            assert_eq!(key, "test_key");
            assert_eq!(value.get("data").unwrap(), &str_a("test_value"));
        },
        _ => panic!("Expected Store action"),
    }
}

#[test]
fn agent_test_agent_state_operations() {
    let backend = InMemoryBackend::new();
    let mut agent_state = AgentState::new(AgentId("test_agent".to_string()), backend);

    let store_action = StateAction::Store {
        key: "test_key".to_string(),
        value: obj_a(vec![("data", str_a("test_value"))]),
    };
    agent_state.handle_state_action(store_action).unwrap();

    assert!(agent_state.ephemeral_state.contains_key("test_key"));
    assert_eq!(
        agent_state.ephemeral_state.get("test_key").unwrap(),
        &obj_a(vec![("data", str_a("test_value"))])
    );
}

#[test]
fn test_agent_state_persistence() {
    let backend = InMemoryBackend::new();
    let mut agent_state = AgentState::new(AgentId("persist_agent".to_string()), backend);

    agent_state
        .ephemeral_state
        .insert("persist_key".to_string(), obj_a(vec![("important", str_a("data"))]));

    agent_state.save_persistent_state().unwrap();
    agent_state.ephemeral_state.clear();
    agent_state.load_persistent_state().unwrap();

    assert!(agent_state.ephemeral_state.contains_key("persist_key"));
    assert_eq!(
        agent_state.ephemeral_state.get("persist_key").unwrap(),
        &obj_a(vec![("important", str_a("data"))])
    );
}

#[test]
fn test_message_processing() {
    let backend = InMemoryBackend::new();
    let mut agent_state = AgentState::new(AgentId("msg_agent".to_string()), backend);

    let payload = obj_a(vec![(
        "Store",
        obj_a(vec![
            ("key", str_a("message_key")),
            ("value", obj_a(vec![("from_message", Value::Bool(true))])),
        ]),
    )]);
    let message = msg_a("msg_1", "external", "msg_agent", payload);

    let routed = agent_state.handle_message(message).unwrap();
    assert!(matches!(routed, Routed::StateApplied));
    assert!(agent_state.ephemeral_state.contains_key("message_key"));
}

#[test]
fn test_in_memory_backend() {
    let mut backend = InMemoryBackend::new();
    let test_value = obj_a(vec![("test", str_a("data"))]);

    backend.store("test_key", &test_value).unwrap();
    let retrieved = backend.retrieve("test_key").unwrap();
    assert_eq!(retrieved, Some(obj_a(vec![("test", str_a("data"))])));

    let keys = backend.list_keys(None).unwrap();
    assert!(keys.contains(&"test_key".to_string()));

    let deleted = backend.delete("test_key").unwrap();
    assert!(deleted);

    let retrieved_after_delete = backend.retrieve("test_key").unwrap();
    assert_eq!(retrieved_after_delete, None);
}

#[test]
fn test_prefix_filtering() {
    let mut backend = InMemoryBackend::new();
    let test_value = obj_a(vec![("test", str_a("data"))]);

    backend.store("agent1:state", &test_value).unwrap();
    backend.store("agent2:state", &test_value).unwrap();
    backend.store("system:config", &test_value).unwrap();

    let agent_keys = backend.list_keys(Some("agent")).unwrap();
    assert_eq!(agent_keys.len(), 2);
    assert!(agent_keys.contains(&"agent1:state".to_string()));
    assert!(agent_keys.contains(&"agent2:state".to_string()));

    let system_keys = backend.list_keys(Some("system")).unwrap();
    assert_eq!(system_keys.len(), 1);
    assert!(system_keys.contains(&"system:config".to_string()));
}

#[test]
fn store_twice_reads_second_value() {
    let backend = InMemoryBackend::new();
    let mut state = AgentState::new(AgentId("lww_agent".to_string()), backend);
    state.store("k", str_a("first")).unwrap();
    state.store("k", str_a("second")).unwrap();
    assert_eq!(state.get("k"), Some(str_a("second")));
}

#[test]
fn delete_then_get_misses_and_is_idempotent() {
    let backend = InMemoryBackend::new();
    let mut state = AgentState::new(AgentId("del_agent".to_string()), backend);
    state.store("k", str_a("v")).unwrap();
    state.delete("k").unwrap();
    assert_eq!(state.get("k"), None);
    state.delete("k").unwrap();
    assert_eq!(state.get("k"), None);
}

#[test]
fn get_populates_cache_from_backend() {
    let mut backend = InMemoryBackend::new();
    backend.store("warm_agent:seeded", &str_a("durable")).unwrap();
    let mut state = AgentState::new(AgentId("warm_agent".to_string()), backend);
    assert_eq!(state.get("seeded"), Some(str_a("durable")));
    assert!(state.ephemeral_state.contains_key("seeded"));
}

#[test]
fn foreign_message_is_never_applied_locally() {
    let mut agent = AgentProcess::init(generic_config("local_agent", false));
    let mut provider = MockLLMProvider::new();

    let payload = obj_a(vec![
        ("message_type", str_a("state_update")),
        ("updates", obj_a(vec![("sneaky", str_a("write"))])),
    ]);
    let message = msg_a("foreign_1", "someone", "other_agent", payload);
    let outcome = agent.process_message(message, &mut provider);

    assert!(matches!(outcome, DispatchOutcome::Dropped));
    assert_eq!(agent.get_agent_state().len(), 0);
    assert_eq!(agent.llm_operations.len(), 0);
}

#[test]
fn foreign_message_is_forwarded_when_transport_is_on() {
    let mut config = generic_config("local_agent_2", false);
    config.nats_enabled = true;
    let mut agent = AgentProcess::init(config);
    let mut provider = MockLLMProvider::new();

    let message = msg_a("foreign_2", "someone", "other_agent", str_a("hi"));
    match agent.process_message(message, &mut provider) {
        DispatchOutcome::Forwarded { subject, message } => {
            assert_eq!(subject, "agent.other_agent");
            assert_eq!(message.id, "foreign_2");
        },
        _ => panic!("expected the message to be forwarded"),
    }
    assert_eq!(agent.state.len(), 0);
}

#[test]
fn messages_from_one_sender_apply_in_order() {
    let mut agent = AgentProcess::init(generic_config("order_agent", false));
    let mut provider = MockLLMProvider::new();

    let first = msg_a("m1", "alpha", "order_agent", obj_a(vec![("seq", Value::Int(1))]));
    let second = msg_a("m2", "alpha", "order_agent", obj_a(vec![("seq", Value::Int(2))]));
    agent.process_message(first, &mut provider);
    agent.process_message(second, &mut provider);

    let stored = agent.state.get("last_message_from_alpha").unwrap();
    assert_eq!(stored.get("seq").unwrap(), &Value::Int(2));
}

#[test]
fn state_update_merges_pairs() {
    let mut agent = AgentProcess::init(generic_config("merge_agent", false));
    let mut provider = MockLLMProvider::new();

    let payload = obj_a(vec![
        ("message_type", str_a("state_update")),
        ("updates", obj_a(vec![("a", Value::Int(1)), ("b", str_a("two"))])),
    ]);
    agent.process_message(msg_a("m1", "s", "merge_agent", payload), &mut provider);

    assert_eq!(agent.state.get("a").unwrap(), &Value::Int(1));
    assert_eq!(agent.state.get("b").unwrap(), &str_a("two"));
}

#[test]
fn coordination_messages_do_not_overwrite_each_other() {
    let mut agent = AgentProcess::init(generic_config("coord_agent", false));
    let mut provider = MockLLMProvider::new();

    let p1 = obj_a(vec![("message_type", str_a("coordination")), ("round", Value::Int(1))]);
    let p2 = obj_a(vec![("message_type", str_a("coordination")), ("round", Value::Int(2))]);
    agent.process_message(msg_a("m1", "s", "coord_agent", p1), &mut provider);
    agent.process_message(msg_a("m2", "s", "coord_agent", p2), &mut provider);

    assert!(agent.state.get("coordination_message_1").is_some());
    assert!(agent.state.get("coordination_message_2").is_some());
    assert_eq!(agent.state.len(), 2);
}

#[test]
fn data_transfer_stores_under_transfer_id() {
    let mut agent = AgentProcess::init(generic_config("xfer_agent", false));
    let mut provider = MockLLMProvider::new();

    let payload = obj_a(vec![
        ("message_type", str_a("data_transfer")),
        ("transfer_id", str_a("t42")),
        ("data", obj_a(vec![("rows", Value::Int(3))])),
    ]);
    agent.process_message(msg_a("m1", "s", "xfer_agent", payload), &mut provider);

    let stored = agent.state.get("data_transfer_t42").unwrap();
    assert_eq!(stored.get("rows").unwrap(), &Value::Int(3));
}

#[test]
fn scraping_task_records_result_or_error() {
    let mut agent = AgentProcess::init(generic_config("scrape_agent", false));
    let mut provider = MockLLMProvider::new();

    let good = obj_a(vec![
        ("message_type", str_a("scraping_task")),
        (
            "target",
            obj_a(vec![
                ("url", str_a("https://example.com")),
                ("title", str_a("Example")),
                ("id", str_a("t1")),
            ]),
        ),
    ]);
    agent.process_message(msg_a("m1", "s", "scrape_agent", good), &mut provider);
    assert!(agent.state.get("scraped_data_t1").is_some());

    let bad = obj_a(vec![
        ("message_type", str_a("scraping_task")),
        (
            "target",
            obj_a(vec![("url", str_a("ftp://nope")), ("id", str_a("t2"))]),
        ),
    ]);
    agent.process_message(msg_a("m2", "s", "scrape_agent", bad), &mut provider);
    let err = agent.state.get("scraping_error_t2").unwrap();
    assert_eq!(err.get("error").unwrap(), &str_a("Invalid URL: ftp://nope"));
}

#[test]
fn supervisor_test_agent_state_operations() {
    let mut agent = AgentProcess::init(generic_config("state_test_agent", false));
    let store_action = StateAction::Store {
        key: "test_key".to_string(),
        value: obj_a(vec![("data", str_a("test_value"))]),
    };
    agent.apply_state_action(store_action);

    let state = agent.get_agent_state();
    assert!(state.contains_key("test_key"));
    assert_eq!(state.get("test_key").unwrap(), &obj_a(vec![("data", str_a("test_value"))]));
}

#[test]
fn supervisor_restarts_only_the_failed_child() {
    let configs = vec![
        generic_config("worker_one", false),
        generic_config("worker_two", true),
    ];
    let supervisor = AgentSupervisor::new(configs);

    let restart = supervisor.restart_config("worker_two").unwrap();
    assert_eq!(restart.id.0, "worker_two");
    assert!(restart.llm_enabled);
    assert!(supervisor.restart_config("stranger").is_none());
}
