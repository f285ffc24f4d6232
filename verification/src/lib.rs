//! A per-agent runtime core for a distributed actor system: a two-tier
//! key/value state store, a priority-aware message router, and an LLM task
//! executor with a bounded retry policy and deterministic fallback synthesis.
//!
//! All state transitions are stated in contracts over mathematical models:
//! payloads are structured [`value::Value`] trees, state stores are maps from
//! key characters to value models, and the retry loop is pinned to the exact
//! sequence of provider outcomes it observed.

pub mod agent;
pub mod json;
pub mod kvmap;
pub mod llm_client;
pub mod memory;
pub mod nats_comm;
pub mod supervisor;
pub mod text;
pub mod value;
pub mod wasm_nats;

pub use agent::{Agent, AgentId, AgentState, Message, StateAction};
pub use llm_client::{
    LLMClient, LLMConfig, LLMProvider, LLMRequest, LLMResponse, LLMUsage, MockLLMProvider,
    WorkflowStep, create_llm_client, retry_llm_operation,
};
pub use memory::{InMemoryBackend, MemoryBackend};
pub use nats_comm::{ConnectionStats, NatsConfig};
pub use supervisor::{
    AgentConfig, AgentProcess, AgentSupervisor, AgentType, GetAgentState, MemoryBackendType,
    OperationRecord, OperationStatus, Shutdown,
};
pub use wasm_nats::{WasmConnectionStats, WasmNatsConfig};

use vstd::prelude::*;

verus! {

/// Everything that can go wrong inside the agent core.
///
/// The retryable kinds are exactly `LLMTimeout`, `LLMRateLimit` and `Nats`
/// (the transport); every other kind is terminal on first occurrence.
#[derive(Debug)]
pub enum Error {
    /// Transport (message bus) failure.
    Nats(String),
    /// A payload could not be encoded or decoded.
    Serialization(String),
    /// Persistent backend I/O failure.
    Io(String),
    /// Catch-all application error.
    Custom(String),
    /// The LLM provider reported a failure.
    LLMProvider(String),
    /// The LLM call timed out after the given number of seconds.
    LLMTimeout { timeout: u64 },
    /// The LLM provider rejected the call for rate limiting.
    LLMRateLimit(String),
    /// The LLM provider answered in a shape the core cannot use.
    LLMResponseFormat(String),
    /// A workflow plan failed validation.
    WorkflowValidation(String),
}

impl Error {
    /// Which error kinds a bounded retry loop may try again.
    pub open spec fn spec_is_retryable(&self) -> bool {
        match self {
            Error::LLMTimeout { .. } => true,
            Error::LLMRateLimit(_) => true,
            Error::Nats(_) => true,
            _ => false,
        }
    }

    /// The per-kind delay table, in milliseconds, applied between retries.
    pub open spec fn spec_retry_delay_ms(&self) -> u64 {
        match self {
            Error::LLMTimeout { .. } => 1000,
            Error::LLMRateLimit(_) => 5000,
            Error::Nats(_) => 500,
            _ => 0,
        }
    }

    pub fn is_retryable(&self) -> (r: bool)
        ensures
            r == self.spec_is_retryable(),
    {
        match self {
            Error::LLMTimeout { .. } => true,
            Error::LLMRateLimit(_) => true,
            Error::Nats(_) => true,
            _ => false,
        }
    }

    /// The kind's label followed by its payload.
    pub open spec fn spec_message(&self) -> Seq<char> {
        match self {
            Error::Nats(s) => "NATS error: "@ + s@,
            Error::Serialization(s) => "Serialization error: "@ + s@,
            Error::Io(s) => "I/O error: "@ + s@,
            Error::Custom(s) => "Custom error: "@ + s@,
            Error::LLMProvider(s) => "LLM provider error: "@ + s@,
            Error::LLMTimeout { timeout } => "LLM API timeout after "@ + crate::text::spec_u64_string(
                *timeout,
            ) + "s"@,
            Error::LLMRateLimit(s) => "LLM rate limit exceeded: "@ + s@,
            Error::LLMResponseFormat(s) => "Invalid LLM response format: "@ + s@,
            Error::WorkflowValidation(s) => "Workflow validation error: "@ + s@,
        }
    }

    /// Renders the error for reporting.
    pub fn message(&self) -> (r: String)
        ensures
            r@ == self.spec_message(),
    {
        match self {
            Error::Nats(s) => crate::text::concat2("NATS error: ", s.as_str()),
            Error::Serialization(s) => crate::text::concat2("Serialization error: ", s.as_str()),
            Error::Io(s) => crate::text::concat2("I/O error: ", s.as_str()),
            Error::Custom(s) => crate::text::concat2("Custom error: ", s.as_str()),
            Error::LLMProvider(s) => crate::text::concat2("LLM provider error: ", s.as_str()),
            Error::LLMTimeout { timeout } => {
                let digits = crate::text::u64_to_string(*timeout);
                crate::text::concat3("LLM API timeout after ", digits.as_str(), "s")
            },
            Error::LLMRateLimit(s) => crate::text::concat2("LLM rate limit exceeded: ", s.as_str()),
            Error::LLMResponseFormat(s) => crate::text::concat2(
                "Invalid LLM response format: ",
                s.as_str(),
            ),
            Error::WorkflowValidation(s) => crate::text::concat2(
                "Workflow validation error: ",
                s.as_str(),
            ),
        }
    }

    pub fn retry_delay_ms(&self) -> (r: u64)
        ensures
            r == self.spec_retry_delay_ms(),
    {
        match self {
            Error::LLMTimeout { .. } => 1000,
            Error::LLMRateLimit(_) => 5000,
            Error::Nats(_) => 500,
            _ => 0,
        }
    }
}

} // verus!
