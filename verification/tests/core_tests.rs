//! Tests for the basic building blocks: identifiers, configurations, text
//! helpers, JSON rendering, frame parsing, and the error taxonomy.

use agent_runtime::text::{contains_substr, u64_to_string};
use agent_runtime::json::{parse_workflow_steps, value_to_json, workflow_steps_to_json};
use agent_runtime::value::Value;
use agent_runtime::wasm_nats::parse_nats_message;
use agent_runtime::{AgentId, Error, NatsConfig, WasmNatsConfig, WorkflowStep};

#[test]
fn it_works() {
    assert_eq!(2 + 2, 4);
}

#[test]
fn test_agent_id_creation() {
    let agent_id = AgentId("test_agent".to_string());
    assert_eq!(agent_id.0, "test_agent");
}

#[test]
fn test_nats_config_default() {
    let config = NatsConfig::default();
    assert_eq!(config.url, "nats://localhost:4222");
    assert_eq!(config.timeout_secs, 10);
    assert_eq!(config.max_reconnects, Some(10));
    assert_eq!(config.reconnect_delay_secs, 1);
}

#[test]
fn test_nats_config_custom() {
    let config = NatsConfig {
        url: "nats://custom:4222".to_string(),
        timeout_secs: 5,
        max_reconnects: Some(5),
        reconnect_delay_secs: 2,
    };
    assert_eq!(config.url, "nats://custom:4222");
    assert_eq!(config.timeout_secs, 5);
    assert_eq!(config.max_reconnects, Some(5));
    assert_eq!(config.reconnect_delay_secs, 2);
}

#[test]
fn test_wasm_nats_config_default() {
    let config = WasmNatsConfig::default();
    assert_eq!(config.websocket_url, "ws://localhost:8080/nats");
    assert_eq!(config.timeout_secs, 10);
    assert_eq!(config.max_reconnects, Some(10));
    assert_eq!(config.reconnect_delay_secs, 1);
}

#[test]
fn test_wasm_nats_config_custom() {
    let config = WasmNatsConfig {
        websocket_url: "wss://nats.example.com/ws".to_string(),
        timeout_secs: 5,
        max_reconnects: Some(5),
        reconnect_delay_secs: 2,
    };
    assert_eq!(config.websocket_url, "wss://nats.example.com/ws");
    assert_eq!(config.timeout_secs, 5);
    assert_eq!(config.max_reconnects, Some(5));
    assert_eq!(config.reconnect_delay_secs, 2);
}

#[test]
fn test_nats_message_parsing() {
    let test_message = b"MSG test.subject 1 5\r\nhello\r\n";
    let parsed = parse_nats_message(test_message).unwrap();
    assert_eq!(parsed.subject, b"test.subject".to_vec());
    assert_eq!(parsed.payload, b"hello".to_vec());
}

#[test]
fn frame_parsing_rejects_malformed_input() {
    assert!(parse_nats_message(b"PUB test 5\r\nhello\r\n").is_none());
    assert!(parse_nats_message(b"MSG test.subject 1 9\r\nhello\r\n").is_none());
    assert!(parse_nats_message(b"").is_none());
}

#[test]
fn llm_client_test_workflow_step_serialization() {
    let step = WorkflowStep {
        step_id: "step1".to_string(),
        agent_type: "processor".to_string(),
        action: "process_data".to_string(),
        inputs: vec!["input1".to_string()],
        outputs: vec!["output1".to_string()],
    };

    let serialized = workflow_steps_to_json(&vec![step]);
    let deserialized = parse_workflow_steps(serialized.as_str()).unwrap();

    assert_eq!(deserialized[0].step_id, "step1");
    assert_eq!(deserialized[0].agent_type, "processor");
}

#[test]
fn integration_tests_test_workflow_step_serialization() {
    let steps = vec![
        WorkflowStep {
            step_id: "step1".to_string(),
            agent_type: "collector".to_string(),
            action: "collect_data".to_string(),
            inputs: vec!["urls".to_string()],
            outputs: vec!["scraped_data".to_string()],
        },
        WorkflowStep {
            step_id: "step2".to_string(),
            agent_type: "summarizer".to_string(),
            action: "summarize".to_string(),
            inputs: vec!["scraped_data".to_string()],
            outputs: vec!["summary".to_string()],
        },
    ];

    let serialized = workflow_steps_to_json(&steps);
    assert!(serialized.contains("step1"));
    assert!(serialized.contains("collector"));

    let deserialized = parse_workflow_steps(serialized.as_str()).unwrap();
    assert_eq!(deserialized.len(), 2);
    assert_eq!(deserialized[0].step_id, "step1");
    assert_eq!(deserialized[1].agent_type, "summarizer");
}

#[test]
fn json_rendering_is_exact() {
    let v = Value::Obj(vec![
        ("name".to_string(), Value::Str("line1\nline\"2\"".to_string())),
        ("count".to_string(), Value::Int(-12)),
        ("flag".to_string(), Value::Bool(true)),
        ("items".to_string(), Value::Arr(vec![Value::Int(1), Value::Null])),
    ]);
    let text = value_to_json(&v);
    assert_eq!(
        text,
        "{\"name\": \"line1\\nline\\\"2\\\"\", \"count\": -12, \"flag\": true, \"items\": [1, null]}"
    );
}

#[test]
fn decimal_rendering_edges() {
    assert_eq!(u64_to_string(0), "0");
    assert_eq!(u64_to_string(907), "907");
    assert_eq!(u64_to_string(u64::MAX), "18446744073709551615");
}

#[test]
fn substring_search_agrees_with_std() {
    assert!(contains_substr("please summarize this", "summarize"));
    assert!(!contains_substr("please plan this", "summarize"));
    assert!(contains_substr("abc", ""));
    assert!(!contains_substr("ab", "abc"));
}

#[test]
fn error_retryability_and_delays() {
    let nats = Error::Nats("down".to_string());
    let serialization = Error::Serialization("bad".to_string());
    let io = Error::Io("disk".to_string());
    let custom = Error::Custom("oops".to_string());
    let provider = Error::LLMProvider("dead".to_string());
    let timeout = Error::LLMTimeout { timeout: 30 };
    let rate = Error::LLMRateLimit("slow down".to_string());
    let format = Error::LLMResponseFormat("not json".to_string());
    let workflow = Error::WorkflowValidation("bad plan".to_string());

    assert!(nats.is_retryable());
    assert!(timeout.is_retryable());
    assert!(rate.is_retryable());
    assert!(!serialization.is_retryable());
    assert!(!io.is_retryable());
    assert!(!custom.is_retryable());
    assert!(!provider.is_retryable());
    assert!(!format.is_retryable());
    assert!(!workflow.is_retryable());

    assert_eq!(timeout.retry_delay_ms(), 1000);
    assert_eq!(rate.retry_delay_ms(), 5000);
    assert_eq!(nats.retry_delay_ms(), 500);
    assert_eq!(custom.retry_delay_ms(), 0);

    assert_eq!(timeout.message(), "LLM API timeout after 30s");
    assert_eq!(custom.message(), "Custom error: oops");
    assert_eq!(nats.message(), "NATS error: down");
    assert_eq!(io.message(), "I/O error: disk");
    assert_eq!(serialization.message(), "Serialization error: bad");
    assert_eq!(provider.message(), "LLM provider error: dead");
    assert_eq!(rate.message(), "LLM rate limit exceeded: slow down");
    assert_eq!(format.message(), "Invalid LLM response format: not json");
    assert_eq!(workflow.message(), "Workflow validation error: bad plan");
}

#[test]
fn plan_reader_round_trips_plain_plans() {
    let steps = vec![WorkflowStep {
        step_id: "7".to_string(),
        agent_type: "router".to_string(),
        action: "route".to_string(),
        inputs: vec!["queue".to_string()],
        outputs: vec![],
    }];
    let wire = workflow_steps_to_json(&steps);
    let back = parse_workflow_steps(wire.as_str()).unwrap();
    assert_eq!(back, steps);
}

#[test]
fn plan_reader_rejects_escaped_strings() {
    // The wire grammar keeps plan strings escape-free; a plan whose action
    // carries a quote encodes with an escape and is not read back.
    let steps = vec![WorkflowStep {
        step_id: "1".to_string(),
        agent_type: "quoter".to_string(),
        action: "say \"hi\"".to_string(),
        inputs: vec![],
        outputs: vec![],
    }];
    let wire = workflow_steps_to_json(&steps);
    assert!(parse_workflow_steps(wire.as_str()).is_none());
}
