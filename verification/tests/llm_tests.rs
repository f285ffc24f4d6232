//! Tests for the LLM client, the mock and fault-injecting providers, the
//! bounded retry policy, and the task executor's fallback synthesis.

use agent_runtime::kvmap::KvMap;
use agent_runtime::llm_client::FlakyProvider;
use agent_runtime::supervisor::{
    DispatchOutcome, LlmTaskKind, OperationStatus, make_fallback_plan, steps_to_value,
};
use agent_runtime::value::Value;
use agent_runtime::{
    AgentConfig, AgentId, AgentProcess, AgentType, LLMClient, LLMConfig, LLMProvider, LLMRequest,
    MemoryBackendType, Message, MockLLMProvider, create_llm_client, retry_llm_operation,
};

fn obj_l(pairs: Vec<(&str, Value)>) -> Value {
    let mut out: Vec<(String, Value)> = Vec::new();
    for (k, v) in pairs {
        out.push((k.to_string(), v));
    }
    Value::Obj(out)
}

fn str_l(s: &str) -> Value {
    Value::Str(s.to_string())
}

fn msg_l(id: &str, from: &str, to: &str, payload: Value) -> Message {
    Message {
        id: id.to_string(),
        from: AgentId(from.to_string()),
        to: AgentId(to.to_string()),
        payload,
        timestamp: 12345,
    }
}

fn llm_config(id: &str, llm: bool, agent_type: AgentType) -> AgentConfig {
    AgentConfig {
        id: AgentId(id.to_string()),
        memory_backend_type: MemoryBackendType::InMemory,
        nats_enabled: false,
        llm_enabled: llm,
        agent_type,
    }
}

#[test]
fn test_mock_llm_provider() {
    let mut provider = MockLLMProvider::new();

    let mut context: KvMap<Value> = KvMap::new();
    context.insert("task".to_string(), str_l("summarization"));
    let request = LLMRequest {
        prompt: "Please summarize this data".to_string(),
        context,
        max_tokens: Some(100),
        temperature_tenths: Some(7),
    };

    let response = provider.complete(&request).unwrap();
    assert_eq!(response.provider, "mock");
    assert!(response.content.contains("Mock summary"));
}

#[test]
fn test_llm_client_summarization() {
    let mut client = create_llm_client();

    let test_data = vec![
        obj_l(vec![("title", str_l("Article 1")), ("content", str_l("Content 1"))]),
        obj_l(vec![("title", str_l("Article 2")), ("content", str_l("Content 2"))]),
    ];

    let summary = client.summarize_data(test_data).unwrap();
    assert!(!summary.is_empty());
}

#[test]
fn test_workflow_planning() {
    let mut client = create_llm_client();

    let workflow = client
        .plan_workflow("Test workflow task", vec!["agent1".to_string(), "agent2".to_string()])
        .unwrap();

    assert!(workflow.len() > 0);
    assert!(!workflow[0].step_id.is_empty());
}

#[test]
fn test_mock_llm_provider_integration() {
    let mut llm_client = create_llm_client();

    let test_data = vec![
        obj_l(vec![
            ("url", str_l("http://example.com/1")),
            ("title", str_l("Test Article 1")),
            ("content", str_l("Content 1")),
        ]),
        obj_l(vec![
            ("url", str_l("http://example.com/2")),
            ("title", str_l("Test Article 2")),
            ("content", str_l("Content 2")),
        ]),
    ];

    let summary = llm_client.summarize_data(test_data).unwrap();
    assert!(!summary.is_empty());
    assert!(summary.contains("Mock summary") || summary.len() > 10);

    let workflow = llm_client
        .plan_workflow("Test workflow task", vec!["agent1".to_string(), "agent2".to_string()])
        .unwrap();
    assert!(workflow.len() > 0);
    assert!(!workflow[0].step_id.is_empty());
    assert!(!workflow[0].agent_type.is_empty());
    assert!(!workflow[0].action.is_empty());

    let mut context: KvMap<Value> = KvMap::new();
    context.insert("context".to_string(), str_l("distributed_systems"));
    let reasoning_result = llm_client
        .reasoning_request(
            "What is the best approach for distributed agent coordination?",
            context,
        )
        .unwrap();
    assert!(!reasoning_result.is_empty());
}

#[test]
fn test_llm_error_handling() {
    let mock_provider = MockLLMProvider::new().with_response("error_test", "");
    let config = LLMConfig::default();
    let mut client = LLMClient::new(mock_provider, config);

    let result = client.reasoning_request("error_test", KvMap::new());
    match result {
        Ok(response) => assert!(response.is_empty() || response.len() > 0),
        Err(_) => {},
    }

    let workflow_result = client.plan_workflow("invalid", vec![]);
    match workflow_result {
        Ok(_) => {},
        Err(e) => {
            let text = e.message();
            assert!(text.contains("parse") || text.contains("Mock"));
        },
    }
}

#[test]
fn retry_exhausts_attempts_on_persistent_retryable_errors() {
    let mut provider = FlakyProvider::new(100, true);
    let request = LLMRequest {
        prompt: "anything".to_string(),
        context: KvMap::new(),
        max_tokens: Some(10),
        temperature_tenths: Some(7),
    };
    let result = retry_llm_operation(&mut provider, &request, 3);
    assert!(result.is_err());
    assert_eq!(provider.attempts(), 4);
}

#[test]
fn non_retryable_error_stops_after_one_attempt() {
    let mut provider = FlakyProvider::new(100, false);
    let request = LLMRequest {
        prompt: "anything".to_string(),
        context: KvMap::new(),
        max_tokens: Some(10),
        temperature_tenths: Some(7),
    };
    let result = retry_llm_operation(&mut provider, &request, 3);
    assert!(result.is_err());
    assert_eq!(provider.attempts(), 1);
}

#[test]
fn retry_recovers_from_transient_errors() {
    let mut provider = FlakyProvider::new(2, true);
    let request = LLMRequest {
        prompt: "anything".to_string(),
        context: KvMap::new(),
        max_tokens: Some(10),
        temperature_tenths: Some(7),
    };
    let result = retry_llm_operation(&mut provider, &request, 3);
    assert_eq!(result.unwrap().content, "Recovered response.");
    assert_eq!(provider.attempts(), 3);
}

#[test]
fn disabled_llm_parks_the_task_without_a_record() {
    let mut agent = AgentProcess::init(llm_config("parked_agent", false, AgentType::Generic));
    let mut provider = MockLLMProvider::new();

    let payload = obj_l(vec![
        ("llm_task", str_l("summarize")),
        ("data", Value::Arr(vec![str_l("one"), str_l("two")])),
    ]);
    let outcome = agent.process_message(msg_l("m1", "s", "parked_agent", payload), &mut provider);

    assert!(matches!(outcome, DispatchOutcome::Handled { .. }));
    assert_eq!(agent.llm_operations.len(), 0);
    assert!(agent.state.get("pending_llm_task_1").is_some());
    assert!(agent.state.get("last_summary").is_none());
}

#[test]
fn summarize_without_data_fails_without_writing() {
    let mut agent = AgentProcess::init(llm_config("failing_agent", true, AgentType::Summarizer));
    let mut provider = MockLLMProvider::new();

    let payload = obj_l(vec![("llm_task", str_l("summarize"))]);
    agent.process_message(msg_l("m1", "s", "failing_agent", payload), &mut provider);

    assert_eq!(agent.llm_operations.len(), 1);
    assert_eq!(agent.llm_operations[0].status, OperationStatus::Failed);
    assert_eq!(agent.llm_operations[0].kind, LlmTaskKind::Summarize);
    assert!(agent.state.get("last_summary").is_none());
}

#[test]
fn unreachable_provider_yields_the_fallback_plan() {
    let mut agent = AgentProcess::init(llm_config("planner_agent", true, AgentType::WorkflowCoordinator));
    let mut provider = FlakyProvider::new(100, true);

    let payload = obj_l(vec![
        ("llm_task", str_l("plan_workflow")),
        ("task_description", str_l("Test workflow")),
    ]);
    agent.process_message(msg_l("m1", "s", "planner_agent", payload), &mut provider);

    let expected = steps_to_value(make_fallback_plan());
    assert_eq!(agent.state.get("workflow_plan").unwrap(), &expected);
    assert_eq!(agent.llm_operations.len(), 1);
    assert_eq!(agent.llm_operations[0].status, OperationStatus::CompletedFallback);
}

#[test]
fn summarize_fallback_reports_the_item_count() {
    let mut agent = AgentProcess::init(llm_config("fb_agent", true, AgentType::Summarizer));
    let mut provider = FlakyProvider::new(100, false);

    let payload = obj_l(vec![
        ("llm_task", str_l("summarize")),
        ("data", Value::Arr(vec![str_l("a"), str_l("b")])),
    ]);
    agent.process_message(msg_l("m1", "s", "fb_agent", payload), &mut provider);

    assert_eq!(provider.attempts(), 1);
    assert_eq!(
        agent.state.get("last_summary").unwrap(),
        &str_l(
            "[FALLBACK] Summary: analyzed 2 data items. Key insights: distributed agent coordination, resilient message handling, graceful degradation."
        )
    );
    assert_eq!(agent.llm_operations[0].status, OperationStatus::CompletedFallback);
}

#[test]
fn test_llm_enabled_agent_creation() {
    let mut agent = AgentProcess::init(llm_config("test_llm_agent", true, AgentType::Summarizer));
    let mut provider = MockLLMProvider::new();

    let llm_message = msg_l(
        "test_llm_msg",
        "test_harness",
        "test_llm_agent",
        obj_l(vec![
            ("llm_task", str_l("summarize")),
            (
                "data",
                Value::Arr(vec![obj_l(vec![
                    ("title", str_l("Test")),
                    ("content", str_l("Test content")),
                ])]),
            ),
        ]),
    );
    agent.process_message(llm_message, &mut provider);

    let ping = msg_l("ping_test", "test_harness", "test_llm_agent", obj_l(vec![("type", str_l("ping"))]));
    agent.process_message(ping, &mut provider);

    let final_state = agent.get_agent_state();
    assert!(final_state.get("last_message_from_test_harness").is_some());
}

#[test]
fn test_different_agent_types() {
    let agent_types = vec![
        AgentType::DataCollector,
        AgentType::Summarizer,
        AgentType::WorkflowCoordinator,
        AgentType::WebScraper,
        AgentType::Generic,
    ];

    for agent_type in agent_types {
        let name = format!("test_{:?}_agent", agent_type);
        let llm_enabled = matches!(agent_type, AgentType::Summarizer | AgentType::WorkflowCoordinator);
        let mut agent = AgentProcess::init(llm_config(name.as_str(), llm_enabled, agent_type));
        let mut provider = MockLLMProvider::new();

        let payload = obj_l(vec![("type", str_l("test"))]);
        agent.process_message(msg_l("t", "test_harness", name.as_str(), payload), &mut provider);

        assert!(agent.state.get("last_message_from_test_harness").is_some());
    }
}

#[test]
fn test_llm_task_message_processing() {
    let mut agent = AgentProcess::init(llm_config("llm_test_agent", true, AgentType::Generic));
    let mut provider = MockLLMProvider::new();

    let summarize = obj_l(vec![
        ("llm_task", str_l("summarize")),
        (
            "data",
            Value::Arr(vec![obj_l(vec![("title", str_l("Test")), ("content", str_l("Content"))])]),
        ),
    ]);
    let plan = obj_l(vec![
        ("llm_task", str_l("plan_workflow")),
        ("task_description", str_l("Test workflow")),
        ("available_agents", Value::Arr(vec![str_l("agent1"), str_l("agent2")])),
    ]);
    let reason = obj_l(vec![
        ("llm_task", str_l("reason")),
        ("prompt", str_l("Test reasoning prompt")),
        ("context", obj_l(vec![("domain", str_l("test"))])),
    ]);

    agent.process_message(msg_l("llm_test_summarize", "test_harness", "llm_test_agent", summarize), &mut provider);
    agent.process_message(msg_l("llm_test_plan_workflow", "test_harness", "llm_test_agent", plan), &mut provider);
    agent.process_message(msg_l("llm_test_reason", "test_harness", "llm_test_agent", reason), &mut provider);

    assert_eq!(agent.llm_operations.len(), 3);
    assert!(agent.state.get("last_summary").is_some());
    assert!(agent.state.get("workflow_plan").is_some());
    assert!(agent.state.get("last_reasoning").is_some());

    let final_ping = msg_l("final_ping", "test_harness", "llm_test_agent", obj_l(vec![("type", str_l("final_ping"))]));
    agent.process_message(final_ping, &mut provider);

    let final_state = agent.get_agent_state();
    assert!(final_state.get("last_message_from_test_harness").is_some());
}

#[test]
fn test_llm_fault_tolerance() {
    let mut agent = AgentProcess::init(llm_config("fault_test_agent", true, AgentType::Generic));
    let mut provider = MockLLMProvider::new();

    let invalid_messages = vec![
        obj_l(vec![("llm_task", str_l("invalid_task"))]),
        obj_l(vec![("llm_task", str_l("summarize"))]),
        obj_l(vec![("llm_task", str_l("plan_workflow"))]),
        obj_l(vec![("llm_task", str_l("reason"))]),
    ];

    let mut i = 0;
    for payload in invalid_messages {
        let id = format!("invalid_llm_msg_{}", i);
        agent.process_message(msg_l(id.as_str(), "test_harness", "fault_test_agent", payload), &mut provider);
        i += 1;
    }
    assert_eq!(agent.llm_operations.len(), 4);
    for record in &agent.llm_operations {
        assert_eq!(record.status, OperationStatus::Failed);
    }

    let recovery = msg_l("recovery_test", "test_harness", "fault_test_agent", obj_l(vec![("type", str_l("recovery_ping"))]));
    agent.process_message(recovery, &mut provider);

    let final_state = agent.get_agent_state();
    assert!(final_state.get("last_message_from_test_harness").is_some());
}

#[test]
fn test_supervisor_config_creation() {
    let config = AgentConfig {
        id: AgentId("test_agent".to_string()),
        memory_backend_type: MemoryBackendType::InMemory,
        nats_enabled: true,
        llm_enabled: false,
        agent_type: AgentType::Generic,
    };

    assert_eq!(config.id.0, "test_agent");
    assert!(config.nats_enabled);
}

#[test]
fn reasoning_task_stores_the_mock_answer() {
    let mut agent = AgentProcess::init(llm_config("reason_agent", true, AgentType::Generic));
    let mut provider = MockLLMProvider::new();

    let payload = obj_l(vec![("llm_task", str_l("reason")), ("prompt", str_l("plain question"))]);
    agent.process_message(msg_l("m1", "s", "reason_agent", payload), &mut provider);

    assert_eq!(
        agent.state.get("last_reasoning").unwrap(),
        &str_l("Mock reasoning: Task completed with mock logic.")
    );
    assert_eq!(agent.llm_operations[0].status, OperationStatus::Completed);
}

#[test]
fn mock_plan_parses_into_stored_steps() {
    let mut agent = AgentProcess::init(llm_config("plan_agent", true, AgentType::WorkflowCoordinator));
    let mut provider = MockLLMProvider::new();

    let payload = obj_l(vec![
        ("llm_task", str_l("plan_workflow")),
        ("task_description", str_l("Organize the workflow")),
    ]);
    agent.process_message(msg_l("m1", "s", "plan_agent", payload), &mut provider);

    assert_eq!(agent.llm_operations[0].status, OperationStatus::Completed);
    let plan = agent.state.get("workflow_plan").unwrap();
    match plan {
        Value::Arr(steps) => {
            assert_eq!(steps.len(), 1);
            assert_eq!(steps[0].get("step_id").unwrap(), &str_l("1"));
            assert_eq!(steps[0].get("agent_type").unwrap(), &str_l("mock"));
        },
        _ => panic!("expected an array plan"),
    }
}
