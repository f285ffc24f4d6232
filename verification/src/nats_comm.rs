//! Configuration for the message-bus transport and the subject scheme used to
//! forward messages between agents. The connection itself is a host concern;
//! the core only derives subjects and carries the configuration.

use vstd::prelude::*;

use crate::agent::agent_subject;
use crate::text::concat2;

verus! {

/// Connection settings for the message bus. Durations are carried in whole
/// seconds, as plain integers.
#[derive(Debug, Clone)]
pub struct NatsConfig {
    pub url: String,
    pub timeout_secs: u64,
    pub max_reconnects: Option<usize>,
    pub reconnect_delay_secs: u64,
}

impl Default for NatsConfig {
    fn default() -> (r: Self)
        ensures
            r.url@ == "nats://localhost:4222"@,
            r.timeout_secs == 10,
            r.max_reconnects == Some(10usize),
            r.reconnect_delay_secs == 1,
    {
        NatsConfig {
            url: "nats://localhost:4222".to_owned(),
            timeout_secs: 10,
            max_reconnects: Some(10),
            reconnect_delay_secs: 1,
        }
    }
}

/// Counters a connection reports.
#[derive(Debug, Clone)]
pub struct ConnectionStats {
    pub messages_sent: u64,
    pub messages_received: u64,
    pub bytes_sent: u64,
    pub bytes_received: u64,
    pub reconnects: u64,
}

/// The subject a message to agent `to` travels on.
pub fn subject_for_agent(to: &str) -> (r: String)
    ensures
        r@ == agent_subject(to@),
{
    concat2("agent.", to)
}

} // verus!
