//! The agent actor: per-message routing by destination, priority and type
//! discriminant; the LLM task executor with its bounded retries and
//! deterministic fallback synthesis; and the one-for-one supervisor.

use vstd::prelude::*;

use crate::agent::{AgentId, Message, agent_subject, last_msg_key};
use crate::json::{parse_workflow_steps, plan_plain, steps_json};
use crate::kvmap::{KvMap, map_of};
use crate::llm_client::{
    AttemptOutcome, LLMRequest, LLMProvider, WorkflowStep, WorkflowStepModel, retry_llm_operation,
    step_models, string_models,
};
use crate::text::{concat2, str_eq, spec_u64_string, u64_to_string};
use crate::value::{ValModel, Value, lemma_obj_model, obj_model};

verus! {

/// How an agent keeps its durable state.
#[derive(Debug, Clone)]
pub enum MemoryBackendType {
    InMemory,
    File { path: String },
}

/// The role an agent is configured for.
#[derive(Debug, Clone)]
pub enum AgentType {
    DataCollector,
    Summarizer,
    WorkflowCoordinator,
    WebScraper,
    Generic,
}

/// Everything an agent is built from; immutable once the agent runs.
#[derive(Debug, Clone)]
pub struct AgentConfig {
    pub id: AgentId,
    pub memory_backend_type: MemoryBackendType,
    pub nats_enabled: bool,
    pub llm_enabled: bool,
    pub agent_type: AgentType,
}

/// A synchronous request for a snapshot of an agent's state.
#[derive(Debug)]
pub struct GetAgentState;

/// The message that ends an agent's processing loop.
#[derive(Debug)]
pub struct Shutdown;

/// What one LLM task invocation was asked to do.
#[derive(Debug, Clone, Copy, PartialEq, Eq, Structural)]
pub enum LlmTaskKind {
    Summarize,
    PlanWorkflow,
    Reason,
    Other,
}

/// Where one LLM task invocation stands: `Processing` is the in-flight
/// phase, the other three are terminal. The synchronous executor here runs an
/// invocation to its terminal status before recording it; a host driving the
/// provider call asynchronously parks a `Processing` record meanwhile.
#[derive(Debug, Clone, Copy, PartialEq, Eq, Structural)]
pub enum OperationStatus {
    Processing,
    Completed,
    CompletedFallback,
    Failed,
}

/// The append-only record of one LLM task invocation.
#[derive(Debug, Clone, Copy, PartialEq, Eq, Structural)]
pub struct OperationRecord {
    pub operation_id: u64,
    pub kind: LlmTaskKind,
    pub status: OperationStatus,
}

/// The priority tag of a message. Priority is observability metadata: the
/// mailbox already serializes delivery, so dispatch is identical across
/// priorities.
#[derive(Debug, Clone, Copy, PartialEq, Eq, Structural)]
pub enum Priority {
    Critical,
    High,
    Medium,
    Normal,
    Low,
}

/// The priority a payload declares; unrecognized or absent tags are `Normal`.
pub open spec fn spec_priority(p: ValModel) -> Priority {
    match p.get_field("priority"@) {
        Some(v) => match v.as_text() {
            Some(t) => if t == "critical"@ {
                Priority::Critical
            } else if t == "high"@ {
                Priority::High
            } else if t == "medium"@ {
                Priority::Medium
            } else if t == "low"@ {
                Priority::Low
            } else {
                Priority::Normal
            },
            None => Priority::Normal,
        },
        None => Priority::Normal,
    }
}

/// Classifies a payload's priority.
pub fn classify_priority(payload: &Value) -> (r: Priority)
    ensures
        r == spec_priority(payload@),
{
    match payload.get("priority") {
        Some(v) => match v.as_str() {
            Some(t) => {
                if str_eq(t, "critical") {
                    Priority::Critical
                } else if str_eq(t, "high") {
                    Priority::High
                } else if str_eq(t, "medium") {
                    Priority::Medium
                } else if str_eq(t, "low") {
                    Priority::Low
                } else {
                    Priority::Normal
                }
            },
            None => Priority::Normal,
        },
        None => Priority::Normal,
    }
}

/// The `llm_task` discriminant of a payload, if it carries one as a string.
pub open spec fn llm_task_field(p: ValModel) -> Option<Seq<char>> {
    match p.get_field("llm_task"@) {
        Some(v) => v.as_text(),
        None => None,
    }
}

/// The `message_type` discriminant of a payload; absent or non-string tags
/// fall to `"standard"`.
pub open spec fn message_type_field(p: ValModel) -> Seq<char> {
    match p.get_field("message_type"@) {
        Some(v) => match v.as_text() {
            Some(t) => t,
            None => "standard"@,
        },
        None => "standard"@,
    }
}

/// The task kind named by an `llm_task` discriminant.
pub open spec fn spec_task_kind(t: Seq<char>) -> LlmTaskKind {
    if t == "summarize"@ {
        LlmTaskKind::Summarize
    } else if t == "plan_workflow"@ {
        LlmTaskKind::PlanWorkflow
    } else if t == "reason"@ {
        LlmTaskKind::Reason
    } else {
        LlmTaskKind::Other
    }
}

/// The key a pending LLM task is parked under when the LLM is disabled.
pub open spec fn pending_task_key(n: u64) -> Seq<char> {
    "pending_llm_task_"@ + spec_u64_string(n)
}

/// The key one coordination message is stored under; the sequence number
/// makes coordination messages never overwrite one another.
pub open spec fn coordination_key(n: u64) -> Seq<char> {
    "coordination_message_"@ + spec_u64_string(n)
}

/// The key a data transfer is stored under.
pub open spec fn transfer_key(id: Seq<char>) -> Seq<char> {
    "data_transfer_"@ + id
}

/// The summary text synthesized when the provider cannot answer: it reports
/// the item count and fixed insight phrases, behind a fallback marker.
pub open spec fn summary_fallback(n: u64) -> Seq<char> {
    "[FALLBACK] Summary: analyzed "@ + spec_u64_string(n)
        + " data items. Key insights: distributed agent coordination, resilient message handling, graceful degradation."@
}

/// The reasoning text synthesized when the provider cannot answer: it echoes
/// the prompt and a fixed recommendation, behind a fallback marker.
pub open spec fn reason_fallback(prompt: Seq<char>) -> Seq<char> {
    "[FALLBACK] Reasoning for prompt: '"@ + prompt
        + "'. Strategic recommendation: decompose the task, delegate to specialized agents, and validate results before acting."@
}

/// Synthesizes the fallback summary.
pub fn make_summary_fallback(n: u64) -> (r: String)
    ensures
        r@ == summary_fallback(n),
{
    let digits = u64_to_string(n);
    let mut out = "[FALLBACK] Summary: analyzed ".to_owned();
    out.append(digits.as_str());
    out.append(
        " data items. Key insights: distributed agent coordination, resilient message handling, graceful degradation.",
    );
    out
}

/// Synthesizes the fallback reasoning.
pub fn make_reason_fallback(prompt: &str) -> (r: String)
    ensures
        r@ == reason_fallback(prompt@),
{
    let mut out = "[FALLBACK] Reasoning for prompt: '".to_owned();
    out.append(prompt);
    out.append(
        "'. Strategic recommendation: decompose the task, delegate to specialized agents, and validate results before acting.",
    );
    out
}

/// The fixed four-step generic pipeline a failed workflow planning falls back
/// to: collect, process, summarize, validate.
pub open spec fn fallback_plan() -> Seq<WorkflowStepModel> {
    seq![
        WorkflowStepModel {
            step_id: "1"@,
            agent_type: "data_collector"@,
            action: "collect_data"@,
            inputs: seq!["source_urls"@],
            outputs: seq!["raw_data"@],
        },
        WorkflowStepModel {
            step_id: "2"@,
            agent_type: "processor"@,
            action: "process_data"@,
            inputs: seq!["raw_data"@],
            outputs: seq!["processed_data"@],
        },
        WorkflowStepModel {
            step_id: "3"@,
            agent_type: "summarizer"@,
            action: "generate_summary"@,
            inputs: seq!["processed_data"@],
            outputs: seq!["final_summary"@],
        },
        WorkflowStepModel {
            step_id: "4"@,
            agent_type: "coordinator"@,
            action: "validate_results"@,
            inputs: seq!["final_summary"@],
            outputs: seq!["validated_output"@],
        },
    ]
}

/// Builds the fallback plan.
pub fn make_fallback_plan() -> (r: Vec<WorkflowStep>)
    ensures
        step_models(r@) == fallback_plan(),
{
    let mut steps: Vec<WorkflowStep> = Vec::new();
    steps.push(
        WorkflowStep {
            step_id: "1".to_owned(),
            agent_type: "data_collector".to_owned(),
            action: "collect_data".to_owned(),
            inputs: vec!["source_urls".to_owned()],
            outputs: vec!["raw_data".to_owned()],
        },
    );
    steps.push(
        WorkflowStep {
            step_id: "2".to_owned(),
            agent_type: "processor".to_owned(),
            action: "process_data".to_owned(),
            inputs: vec!["raw_data".to_owned()],
            outputs: vec!["processed_data".to_owned()],
        },
    );
    steps.push(
        WorkflowStep {
            step_id: "3".to_owned(),
            agent_type: "summarizer".to_owned(),
            action: "generate_summary".to_owned(),
            inputs: vec!["processed_data".to_owned()],
            outputs: vec!["final_summary".to_owned()],
        },
    );
    steps.push(
        WorkflowStep {
            step_id: "4".to_owned(),
            agent_type: "coordinator".to_owned(),
            action: "validate_results".to_owned(),
            inputs: vec!["final_summary".to_owned()],
            outputs: vec!["validated_output".to_owned()],
        },
    );
    proof {
        assert forall|i: int| 0 <= i < step_models(steps@).len() implies #[trigger] step_models(
            steps@,
        )[i] == fallback_plan()[i] by {
            assert(string_models(steps@[i].inputs@) =~= fallback_plan()[i].inputs);
            assert(string_models(steps@[i].outputs@) =~= fallback_plan()[i].outputs);
        }
        assert(step_models(steps@) =~= fallback_plan());
    }
    steps
}

/// The payload value a workflow step stands for.
pub open spec fn step_value(s: WorkflowStepModel) -> ValModel {
    ValModel::Obj(
        seq![
            ("step_id"@, ValModel::Str(s.step_id)),
            ("agent_type"@, ValModel::Str(s.agent_type)),
            ("action"@, ValModel::Str(s.action)),
            ("inputs"@, ValModel::Arr(texts_values(s.inputs))),
            ("outputs"@, ValModel::Arr(texts_values(s.outputs))),
        ],
    )
}

/// String sequences as payload values.
pub open spec fn texts_values(items: Seq<Seq<char>>) -> Seq<ValModel> {
    Seq::new(items.len(), |i: int| ValModel::Str(items[i]))
}

/// A whole plan as a payload value.
pub open spec fn steps_value(steps: Seq<WorkflowStepModel>) -> ValModel {
    ValModel::Arr(Seq::new(steps.len(), |i: int| step_value(steps[i])))
}

/// Converts owned strings to payload values.
#[verifier::loop_isolation(false)]
fn strings_to_values(items: &Vec<String>) -> (r: Vec<Value>)
    ensures
        crate::value::arr_model(r@) == texts_values(string_models(items@)),
{
    let mut out: Vec<Value> = Vec::new();
    let mut i: usize = 0;
    while i < items.len()
        invariant
            i <= items@.len(),
            out@.len() == i,
            forall|j: int| 0 <= j < i ==> (#[trigger] out@[j])@ == ValModel::Str(items@[j]@),
        decreases items@.len() - i,
    {
        out.push(Value::Str(items[i].clone()));
        i += 1;
    }
    proof {
        crate::value::lemma_arr_model(out@);
        assert(crate::value::arr_model(out@) =~= texts_values(string_models(items@)));
    }
    out
}

/// Converts a plan to the payload value stored under `workflow_plan`.
#[verifier::loop_isolation(false)]
pub fn steps_to_value(steps: Vec<WorkflowStep>) -> (r: Value)
    ensures
        r@ == steps_value(step_models(steps@)),
{
    let ghost models = step_models(steps@);
    let mut out: Vec<Value> = Vec::new();
    let mut i: usize = 0;
    while i < steps.len()
        invariant
            models == step_models(steps@),
            i <= steps@.len(),
            out@.len() == i,
            forall|j: int| 0 <= j < i ==> (#[trigger] out@[j])@ == step_value(models[j]),
        decreases steps@.len() - i,
    {
        let step = &steps[i];
        let inputs = strings_to_values(&step.inputs);
        let outputs = strings_to_values(&step.outputs);
        let mut pairs: Vec<(String, Value)> = Vec::new();
        pairs.push(("step_id".to_owned(), Value::Str(step.step_id.clone())));
        pairs.push(("agent_type".to_owned(), Value::Str(step.agent_type.clone())));
        pairs.push(("action".to_owned(), Value::Str(step.action.clone())));
        pairs.push(("inputs".to_owned(), Value::Arr(inputs)));
        pairs.push(("outputs".to_owned(), Value::Arr(outputs)));
        let obj = Value::Obj(pairs);
        proof {
            lemma_obj_model(pairs@);
            assert(obj@->Obj_0 =~= step_value(models[i as int])->Obj_0);
            assert(obj@ == step_value(models[i as int]));
        }
        out.push(obj);
        i += 1;
    }
    let r = Value::Arr(out);
    proof {
        crate::value::lemma_arr_model(out@);
        assert(r@->Arr_0 =~= steps_value(models)->Arr_0);
        assert(r@ == steps_value(models));
    }
    r
}

/// The agent actor: one serialized mailbox, one state map, one ledger of LLM
/// operations.
#[derive(Debug)]
pub struct AgentProcess {
    pub id: AgentId,
    pub state: KvMap<Value>,
    pub message_count: u64,
    pub config: AgentConfig,
    pub llm_operations: Vec<OperationRecord>,
    pub next_op_id: u64,
}

/// Unique, monotonically minted operation ids.
pub open spec fn ops_wf(ops: Seq<OperationRecord>, next: u64) -> bool {
    &&& forall|i: int| 0 <= i < ops.len() ==> (#[trigger] ops[i]).operation_id < next
    &&& forall|i: int, j: int|
        0 <= i < j < ops.len() ==> (#[trigger] ops[i]).operation_id != (
        #[trigger] ops[j]).operation_id
}

impl AgentProcess {
    /// Well-formedness: the state map is usable, the ledger's ids are unique
    /// and below the mint counter, and the actor runs under its own id.
    pub open spec fn wf(&self) -> bool {
        &&& self.state.wf()
        &&& ops_wf(self.llm_operations@, self.next_op_id)
        &&& self.config.id@ == self.id@
    }

    /// Builds the actor from its configuration.
    pub fn init(config: AgentConfig) -> (r: Self)
        ensures
            r.wf(),
            r.id@ == config.id@,
            r.state@ == Map::<Seq<char>, ValModel>::empty(),
            r.message_count == 0,
            r.llm_operations@ == Seq::<OperationRecord>::empty(),
            r.next_op_id == 0,
    {
        let id = config.id.duplicate();
        AgentProcess {
            id,
            state: KvMap::new(),
            message_count: 0,
            config,
            llm_operations: Vec::new(),
            next_op_id: 0,
        }
    }

    /// A snapshot of the state map; serving it mutates nothing.
    pub fn get_agent_state(&self) -> (r: KvMap<Value>)
        requires
            self.wf(),
        ensures
            r.wf(),
            r@ == self.state@,
    {
        let mut out: KvMap<Value> = KvMap::new();
        proof {
            self.state.lemma_entries();
            assert(self.state.entries().take(0) =~= Seq::<(Seq<char>, ValModel)>::empty());
        }
        let n = self.state.len();
        let mut i: usize = 0;
        #[verifier::loop_isolation(false)]
        while i < n
            invariant
                n == self.state.entries().len(),
                i <= n,
                out.wf(),
                out@ == map_of(self.state.entries().take(i as int)),
            decreases n - i,
        {
            let key = self.state.key_at(i);
            let value = self.state.value_at(i);
            out.insert(key.clone(), value.deep_copy());
            proof {
                assert(self.state.entries().take(i + 1).drop_last() =~= self.state.entries().take(
                    i as int,
                ));
            }
            i += 1;
        }
        proof {
            assert(self.state.entries().take(n as int) =~= self.state.entries());
        }
        out
    }
}

/// Picks the restart configuration for a failed agent: one-for-one, only the
/// failed child's own configuration, siblings untouched.
pub struct AgentSupervisor {
    pub configs: Vec<AgentConfig>,
}

impl AgentSupervisor {
    pub fn new(configs: Vec<AgentConfig>) -> (r: Self)
        ensures
            r.configs@ == configs@,
    {
        AgentSupervisor { configs }
    }

    /// The configuration to restart `failed_id` from: the first configuration
    /// carrying exactly that id, and none when the id is not supervised.
    #[verifier::loop_isolation(false)]
    pub fn restart_config(&self, failed_id: &str) -> (r: Option<&AgentConfig>)
        ensures
            match r {
                Some(c) => exists|i: int|
                    0 <= i < self.configs@.len() && (#[trigger] self.configs@[i]).id@ == failed_id@
                        && c.id@ == failed_id@,
                None => forall|i: int|
                    0 <= i < self.configs@.len() ==> (#[trigger] self.configs@[i]).id@
                        != failed_id@,
            },
    {
        let mut i: usize = 0;
        while i < self.configs.len()
            invariant
                i <= self.configs@.len(),
                forall|j: int| 0 <= j < i ==> (#[trigger] self.configs@[j]).id@ != failed_id@,
            decreases self.configs@.len() - i,
        {
            if str_eq(self.configs[i].id.0.as_str(), failed_id) {
                return Some(&self.configs[i]);
            }
            i += 1;
        }
        None
    }
}

/// A field's text, with a default for absent or non-string fields.
pub open spec fn text_or(o: Option<ValModel>, d: Seq<char>) -> Seq<char> {
    match o {
        Some(v) => match v.as_text() {
            Some(t) => t,
            None => d,
        },
        None => d,
    }
}

/// Whether a scraping target names a fetchable address.
pub open spec fn valid_url(u: Seq<char>) -> bool {
    "http://"@.is_prefix_of(u) || "https://"@.is_prefix_of(u)
}

/// The canned result recorded for a simulated scrape. Real fetching is a host
/// concern; the core records a deterministic digest of the request.
pub open spec fn scrape_result(url: Seq<char>, title: Seq<char>, id: Seq<char>) -> ValModel {
    ValModel::Obj(
        seq![
            ("task_id"@, ValModel::Str(id)),
            ("url"@, ValModel::Str(url)),
            ("title"@, ValModel::Str(title)),
            ("content"@, ValModel::Str("Simulated content extracted from "@ + url)),
            ("status"@, ValModel::Str("success"@)),
        ],
    )
}

/// The record stored for a scraping request whose address is not fetchable.
pub open spec fn scrape_error(url: Seq<char>, title: Seq<char>) -> ValModel {
    ValModel::Obj(
        seq![
            ("error"@, ValModel::Str("Invalid URL: "@ + url)),
            ("url"@, ValModel::Str(url)),
            ("title"@, ValModel::Str(title)),
        ],
    )
}

/// What handling a regular (non-LLM) message with payload `p` from `from`
/// does to the state map, when the agent has processed `count` messages.
pub open spec fn regular_effect(
    pre: Map<Seq<char>, ValModel>,
    post: Map<Seq<char>, ValModel>,
    from: Seq<char>,
    p: ValModel,
    count: u64,
) -> bool {
    let mt = message_type_field(p);
    if mt == "state_update"@ {
        match p.get_field("updates"@) {
            Some(u) => match u.as_pairs() {
                Some(pairs) => post == pre.union_prefer_right(map_of(pairs)),
                None => post == pre,
            },
            None => post == pre,
        }
    } else if mt == "coordination"@ {
        post == pre.insert(coordination_key(count), p)
    } else if mt == "data_transfer"@ {
        match p.get_field("data"@) {
            Some(d) => post == pre.insert(
                transfer_key(text_or(p.get_field("transfer_id"@), "unknown"@)),
                d,
            ),
            None => post == pre,
        }
    } else if mt == "scraping_task"@ {
        match p.get_field("target"@) {
            Some(t) => {
                let url = text_or(t.get_field("url"@), ""@);
                let title = text_or(t.get_field("title"@), "Unknown"@);
                let id = text_or(t.get_field("id"@), "unknown"@);
                if valid_url(url) {
                    post == pre.insert("scraped_data_"@ + id, scrape_result(url, title, id))
                } else {
                    post == pre.insert("scraping_error_"@ + id, scrape_error(url, title))
                }
            },
            None => post == pre,
        }
    } else {
        post == pre.insert(last_msg_key(from), p)
    }
}

/// The retry loop's observable footprint: `h1` extends `h0` by the attempts
/// of one call under `max_retries` retries.
pub open spec fn attempts_ok(
    h0: Seq<AttemptOutcome>,
    h1: Seq<AttemptOutcome>,
    max_retries: u32,
) -> bool {
    &&& h1.len() > h0.len()
    &&& h1.len() <= h0.len() + max_retries + 1
    &&& h1.subrange(0, h0.len() as int) == h0
    &&& forall|i: int|
        h0.len() <= i < h1.len() - 1 ==> #[trigger] h1[i] == AttemptOutcome::Failed(true)
    &&& (h1.last() matches AttemptOutcome::Succeeded(_) || h1.last() == AttemptOutcome::Failed(
        false,
    ) || h1.len() == h0.len() + max_retries + 1)
}

/// One operation record.
pub open spec fn rec(op_id: u64, kind: LlmTaskKind, status: OperationStatus) -> OperationRecord {
    OperationRecord { operation_id: op_id, kind, status }
}

/// What executing one LLM task with payload `p` does: a task missing its
/// required field fails at once with no attempt and no state write; otherwise
/// the provider is called under the retry policy and the terminal outcome is
/// either the provider's answer stored under the task's result key, or the
/// task's deterministic fallback stored under the same key.
pub open spec fn llm_task_effect(
    pre_state: Map<Seq<char>, ValModel>,
    post_state: Map<Seq<char>, ValModel>,
    pre_ops: Seq<OperationRecord>,
    post_ops: Seq<OperationRecord>,
    op_id: u64,
    p: ValModel,
    h0: Seq<AttemptOutcome>,
    h1: Seq<AttemptOutcome>,
) -> bool {
    match spec_task_kind(llm_task_field(p)->0) {
        LlmTaskKind::Summarize => match p.get_field("data"@) {
            None => {
                &&& post_ops == pre_ops.push(rec(op_id, LlmTaskKind::Summarize, OperationStatus::Failed))
                &&& post_state == pre_state
                &&& h1 == h0
            },
            Some(d) => {
                &&& attempts_ok(h0, h1, 3)
                &&& match h1.last() {
                    AttemptOutcome::Succeeded(c) => post_state == pre_state.insert(
                        "last_summary"@,
                        ValModel::Str(c),
                    ) && post_ops == pre_ops.push(
                        rec(op_id, LlmTaskKind::Summarize, OperationStatus::Completed),
                    ),
                    AttemptOutcome::Failed(_) => post_state == pre_state.insert(
                        "last_summary"@,
                        ValModel::Str(summary_fallback(d.item_count() as u64)),
                    ) && post_ops == pre_ops.push(
                        rec(op_id, LlmTaskKind::Summarize, OperationStatus::CompletedFallback),
                    ),
                }
            },
        },
        LlmTaskKind::PlanWorkflow => match p.get_field("task_description"@) {
            Some(td) => match td.as_text() {
                Some(_) => {
                    &&& attempts_ok(h0, h1, 3)
                    &&& match h1.last() {
                        AttemptOutcome::Succeeded(c) => if exists|sm: Seq<WorkflowStepModel>|
                            plan_plain(sm) && c == steps_json(sm) {
                            (exists|sm: Seq<WorkflowStepModel>|
                                plan_plain(sm) && c == steps_json(sm) && post_state
                                    == pre_state.insert("workflow_plan"@, steps_value(sm)))
                                && post_ops == pre_ops.push(
                                rec(op_id, LlmTaskKind::PlanWorkflow, OperationStatus::Completed),
                            )
                        } else {
                            post_state == pre_state.insert(
                                "workflow_plan"@,
                                steps_value(fallback_plan()),
                            ) && post_ops == pre_ops.push(
                                rec(
                                    op_id,
                                    LlmTaskKind::PlanWorkflow,
                                    OperationStatus::CompletedFallback,
                                ),
                            )
                        },
                        AttemptOutcome::Failed(_) => post_state == pre_state.insert(
                            "workflow_plan"@,
                            steps_value(fallback_plan()),
                        ) && post_ops == pre_ops.push(
                            rec(op_id, LlmTaskKind::PlanWorkflow, OperationStatus::CompletedFallback),
                        ),
                    }
                },
                None => {
                    &&& post_ops == pre_ops.push(
                        rec(op_id, LlmTaskKind::PlanWorkflow, OperationStatus::Failed),
                    )
                    &&& post_state == pre_state
                    &&& h1 == h0
                },
            },
            None => {
                &&& post_ops == pre_ops.push(
                    rec(op_id, LlmTaskKind::PlanWorkflow, OperationStatus::Failed),
                )
                &&& post_state == pre_state
                &&& h1 == h0
            },
        },
        LlmTaskKind::Reason => match p.get_field("prompt"@) {
            Some(pv) => match pv.as_text() {
                Some(prompt) => {
                    &&& attempts_ok(h0, h1, 3)
                    &&& match h1.last() {
                        AttemptOutcome::Succeeded(c) => post_state == pre_state.insert(
                            "last_reasoning"@,
                            ValModel::Str(c),
                        ) && post_ops == pre_ops.push(
                            rec(op_id, LlmTaskKind::Reason, OperationStatus::Completed),
                        ),
                        AttemptOutcome::Failed(_) => post_state == pre_state.insert(
                            "last_reasoning"@,
                            ValModel::Str(reason_fallback(prompt)),
                        ) && post_ops == pre_ops.push(
                            rec(op_id, LlmTaskKind::Reason, OperationStatus::CompletedFallback),
                        ),
                    }
                },
                None => {
                    &&& post_ops == pre_ops.push(
                        rec(op_id, LlmTaskKind::Reason, OperationStatus::Failed),
                    )
                    &&& post_state == pre_state
                    &&& h1 == h0
                },
            },
            None => {
                &&& post_ops == pre_ops.push(rec(op_id, LlmTaskKind::Reason, OperationStatus::Failed))
                &&& post_state == pre_state
                &&& h1 == h0
            },
        },
        LlmTaskKind::Other => {
            &&& post_ops == pre_ops.push(rec(op_id, LlmTaskKind::Other, OperationStatus::Failed))
            &&& post_state == pre_state
            &&& h1 == h0
        },
    }
}

/// Coordination messages never overwrite one another: messages carry
/// strictly increasing sequence numbers, and different numbers store under
/// different coordination keys.
pub proof fn lemma_coordination_keys_distinct(a: u64, b: u64)
    requires
        a != b,
    ensures
        coordination_key(a) != coordination_key(b),
{
    if coordination_key(a) == coordination_key(b) {
        crate::text::lemma_prefix_injective(
            "coordination_message_"@,
            spec_u64_string(a),
            spec_u64_string(b),
        );
        crate::text::lemma_u64_string_injective(a, b);
    }
}

/// In-order processing keeps the last sender's message: handling a regular
/// message with payload `p1` and then one with payload `p2`, both from
/// `from`, leaves `p2` under the sender's key — never `p1`.
pub proof fn lemma_send_order_last_wins(
    state: Map<Seq<char>, ValModel>,
    from: Seq<char>,
    p1: ValModel,
    p2: ValModel,
)
    ensures
        state.insert(last_msg_key(from), p1).insert(last_msg_key(from), p2)[last_msg_key(from)]
            == p2,
        state.insert(last_msg_key(from), p1).insert(last_msg_key(from), p2) =~= state.insert(
            last_msg_key(from),
            p2,
        ),
{
}

/// How one inbound message left the router.
#[derive(Debug)]
pub enum DispatchOutcome {
    /// Processed locally; the priority is observability metadata.
    Handled { priority: Priority },
    /// Addressed to another agent: hand it to the transport on `subject`.
    Forwarded { subject: String, message: Message },
    /// Addressed to another agent and no transport is configured.
    Dropped,
}

/// The executor's planning prompt: the task between fixed instructions.
pub open spec fn plan_task_prompt(task: Seq<char>) -> Seq<char> {
    "Given the task: '"@ + task
        + "', create a detailed workflow plan. Respond with a JSON array of workflow steps."@
}

/// Builds the executor's planning prompt.
pub fn make_plan_task_prompt(task: &str) -> (r: String)
    ensures
        r@ == plan_task_prompt(task@),
{
    let mut out = "Given the task: '".to_owned();
    out.append(task);
    out.append("', create a detailed workflow plan. Respond with a JSON array of workflow steps.");
    out
}

/// The completion request an executor task sends: the given prompt, a `task`
/// context tag when one is named, and the executor's fixed limits.
pub fn executor_request(prompt: String, task_tag: Option<&str>) -> (r: LLMRequest)
    ensures
        r.wf(),
        r.prompt@ == prompt@,
        match task_tag {
            Some(t) => r.context@ == Map::<Seq<char>, ValModel>::empty().insert(
                "task"@,
                ValModel::Str(t@),
            ),
            None => r.context@ == Map::<Seq<char>, ValModel>::empty(),
        },
        r.max_tokens == Some(1000u32),
        r.temperature_tenths == Some(7u32),
{
    let mut context: KvMap<Value> = KvMap::new();
    match task_tag {
        Some(t) => {
            context.insert("task".to_owned(), Value::Str(t.to_owned()));
        },
        None => {},
    }
    LLMRequest { prompt, context, max_tokens: Some(1000), temperature_tenths: Some(7) }
}

impl AgentProcess {
    /// Appends the terminal record of one operation.
    fn push_record(&mut self, op_id: u64, kind: LlmTaskKind, status: OperationStatus)
        requires
            old(self).wf(),
            old(self).next_op_id > op_id,
            forall|i: int|
                0 <= i < old(self).llm_operations@.len() ==> (
                #[trigger] old(self).llm_operations@[i]).operation_id < op_id,
        ensures
            final(self).wf(),
            final(self).llm_operations@ == old(self).llm_operations@.push(rec(op_id, kind, status)),
            final(self).state == old(self).state,
            final(self).id@ == old(self).id@,
            final(self).config == old(self).config,
            final(self).message_count == old(self).message_count,
            final(self).next_op_id == old(self).next_op_id,
    {
        self.llm_operations.push(OperationRecord { operation_id: op_id, kind, status });
        proof {
            let ops = self.llm_operations@;
            assert forall|i: int, j: int|
                0 <= i < j < ops.len() implies (#[trigger] ops[i]).operation_id != (
            #[trigger] ops[j]).operation_id by {
                if j == ops.len() - 1 {
                    assert(ops[i] == old(self).llm_operations@[i]);
                }
            }
        }
    }

    /// Executes the summarization task of `message`.
    fn run_summarize<P: LLMProvider>(
        &mut self,
        message: &Message,
        provider: &mut P,
        op_id: u64,
    ) -> (nothing: ())
        requires
            old(self).wf(),
            old(provider).inv(),
            old(self).next_op_id > op_id,
            forall|i: int|
                0 <= i < old(self).llm_operations@.len() ==> (
                #[trigger] old(self).llm_operations@[i]).operation_id < op_id,
            spec_task_kind(llm_task_field(message.payload@)->0) == LlmTaskKind::Summarize,
        ensures
            final(self).wf(),
            final(provider).inv(),
            final(self).id@ == old(self).id@,
            final(self).config == old(self).config,
            final(self).message_count == old(self).message_count,
            final(self).next_op_id == old(self).next_op_id,
            llm_task_effect(
                old(self).state@,
                final(self).state@,
                old(self).llm_operations@,
                final(self).llm_operations@,
                op_id,
                message.payload@,
                old(provider).history(),
                final(provider).history(),
            ),
    {
        let data = match message.payload.get("data") {
            Some(d) => d,
            None => {
                self.push_record(op_id, LlmTaskKind::Summarize, OperationStatus::Failed);
                return ;
            },
        };
        let n: u64 = match data.as_array() {
            Some(items) => items.len() as u64,
            None => 1,
        };
        let body = crate::json::value_to_json(data);
        let prompt = crate::llm_client::make_summarize_prompt(n, body.as_str());
        let request = executor_request(prompt, Some("summarization"));
        match retry_llm_operation(provider, &request, 3) {
            Ok(resp) => {
                self.state.insert("last_summary".to_owned(), Value::Str(resp.content));
                self.push_record(op_id, LlmTaskKind::Summarize, OperationStatus::Completed);
            },
            Err(_) => {
                let fb = make_summary_fallback(n);
                self.state.insert("last_summary".to_owned(), Value::Str(fb));
                self.push_record(op_id, LlmTaskKind::Summarize, OperationStatus::CompletedFallback);
            },
        }
    }

    /// Executes the workflow-planning task of `message`.
    fn run_plan_workflow<P: LLMProvider>(
        &mut self,
        message: &Message,
        provider: &mut P,
        op_id: u64,
    ) -> (nothing: ())
        requires
            old(self).wf(),
            old(provider).inv(),
            old(self).next_op_id > op_id,
            forall|i: int|
                0 <= i < old(self).llm_operations@.len() ==> (
                #[trigger] old(self).llm_operations@[i]).operation_id < op_id,
            spec_task_kind(llm_task_field(message.payload@)->0) == LlmTaskKind::PlanWorkflow,
        ensures
            final(self).wf(),
            final(provider).inv(),
            final(self).id@ == old(self).id@,
            final(self).config == old(self).config,
            final(self).message_count == old(self).message_count,
            final(self).next_op_id == old(self).next_op_id,
            llm_task_effect(
                old(self).state@,
                final(self).state@,
                old(self).llm_operations@,
                final(self).llm_operations@,
                op_id,
                message.payload@,
                old(provider).history(),
                final(provider).history(),
            ),
    {
        let task_desc = match message.payload.get("task_description") {
            Some(td) => match td.as_str() {
                Some(t) => t,
                None => {
                    self.push_record(op_id, LlmTaskKind::PlanWorkflow, OperationStatus::Failed);
                    return ;
                },
            },
            None => {
                self.push_record(op_id, LlmTaskKind::PlanWorkflow, OperationStatus::Failed);
                return ;
            },
        };
        let prompt = make_plan_task_prompt(task_desc);
        let request = executor_request(prompt, Some("workflow_planning"));
        match retry_llm_operation(provider, &request, 3) {
            Ok(resp) => {
                match parse_workflow_steps(resp.content.as_str()) {
                    Some(steps) => {
                        let plan = steps_to_value(steps);
                        self.state.insert("workflow_plan".to_owned(), plan);
                        self.push_record(
                            op_id,
                            LlmTaskKind::PlanWorkflow,
                            OperationStatus::Completed,
                        );
                    },
                    None => {
                        let plan = steps_to_value(make_fallback_plan());
                        self.state.insert("workflow_plan".to_owned(), plan);
                        self.push_record(
                            op_id,
                            LlmTaskKind::PlanWorkflow,
                            OperationStatus::CompletedFallback,
                        );
                    },
                }
            },
            Err(_) => {
                let plan = steps_to_value(make_fallback_plan());
                self.state.insert("workflow_plan".to_owned(), plan);
                self.push_record(
                    op_id,
                    LlmTaskKind::PlanWorkflow,
                    OperationStatus::CompletedFallback,
                );
            },
        }
    }

    /// Executes the reasoning task of `message`.
    fn run_reason<P: LLMProvider>(
        &mut self,
        message: &Message,
        provider: &mut P,
        op_id: u64,
    ) -> (nothing: ())
        requires
            old(self).wf(),
            old(provider).inv(),
            old(self).next_op_id > op_id,
            forall|i: int|
                0 <= i < old(self).llm_operations@.len() ==> (
                #[trigger] old(self).llm_operations@[i]).operation_id < op_id,
            spec_task_kind(llm_task_field(message.payload@)->0) == LlmTaskKind::Reason,
        ensures
            final(self).wf(),
            final(provider).inv(),
            final(self).id@ == old(self).id@,
            final(self).config == old(self).config,
            final(self).message_count == old(self).message_count,
            final(self).next_op_id == old(self).next_op_id,
            llm_task_effect(
                old(self).state@,
                final(self).state@,
                old(self).llm_operations@,
                final(self).llm_operations@,
                op_id,
                message.payload@,
                old(provider).history(),
                final(provider).history(),
            ),
    {
        let prompt_text = match message.payload.get("prompt") {
            Some(pv) => match pv.as_str() {
                Some(t) => t,
                None => {
                    self.push_record(op_id, LlmTaskKind::Reason, OperationStatus::Failed);
                    return ;
                },
            },
            None => {
                self.push_record(op_id, LlmTaskKind::Reason, OperationStatus::Failed);
                return ;
            },
        };
        let request = executor_request(prompt_text.to_owned(), None);
        match retry_llm_operation(provider, &request, 3) {
            Ok(resp) => {
                self.state.insert("last_reasoning".to_owned(), Value::Str(resp.content));
                self.push_record(op_id, LlmTaskKind::Reason, OperationStatus::Completed);
            },
            Err(_) => {
                let fb = make_reason_fallback(prompt_text);
                self.state.insert("last_reasoning".to_owned(), Value::Str(fb));
                self.push_record(op_id, LlmTaskKind::Reason, OperationStatus::CompletedFallback);
            },
        }
    }

    /// Dispatches one LLM task by its kind, minting its operation record.
    pub fn handle_llm_task<P: LLMProvider>(&mut self, message: &Message, provider: &mut P) -> (
        nothing: ())
        requires
            old(self).wf(),
            old(provider).inv(),
            old(self).next_op_id < u64::MAX,
            llm_task_field(message.payload@) is Some,
        ensures
            final(self).wf(),
            final(provider).inv(),
            final(self).id@ == old(self).id@,
            final(self).config == old(self).config,
            final(self).message_count == old(self).message_count,
            final(self).next_op_id == old(self).next_op_id + 1,
            llm_task_effect(
                old(self).state@,
                final(self).state@,
                old(self).llm_operations@,
                final(self).llm_operations@,
                old(self).next_op_id,
                message.payload@,
                old(provider).history(),
                final(provider).history(),
            ),
    {
        let task: &str = match message.payload.get("llm_task") {
            Some(v) => match v.as_str() {
                Some(t) => t,
                None => "",
            },
            None => "",
        };
        let op_id = self.next_op_id;
        self.next_op_id = self.next_op_id + 1;
        if str_eq(task, "summarize") {
            self.run_summarize(message, provider, op_id);
        } else if str_eq(task, "plan_workflow") {
            self.run_plan_workflow(message, provider, op_id);
        } else if str_eq(task, "reason") {
            self.run_reason(message, provider, op_id);
        } else {
            self.push_record(op_id, LlmTaskKind::Other, OperationStatus::Failed);
        }
    }
}

impl AgentProcess {
    /// Handles a message without an LLM tag, by its `message_type`: a
    /// `state_update` merges its `updates` pairs, a `coordination` message is
    /// stored under a fresh sequence-numbered key, a `data_transfer` stores
    /// its data under its transfer id, a `scraping_task` records a simulated
    /// scrape, and anything else is stored under the sender's key.
    #[verifier::loop_isolation(false)]
    pub fn handle_regular_message(&mut self, message: &Message) -> (nothing: ())
        requires
            old(self).wf(),
        ensures
            final(self).wf(),
            final(self).id@ == old(self).id@,
            final(self).config == old(self).config,
            final(self).message_count == old(self).message_count,
            final(self).next_op_id == old(self).next_op_id,
            final(self).llm_operations@ == old(self).llm_operations@,
            regular_effect(
                old(self).state@,
                final(self).state@,
                message.from@,
                message.payload@,
                old(self).message_count,
            ),
    {
        let mt: &str = match message.payload.get("message_type") {
            Some(v) => match v.as_str() {
                Some(t) => t,
                None => "standard",
            },
            None => "standard",
        };
        if str_eq(mt, "state_update") {
            match message.payload.get("updates") {
                Some(u) => match u.as_object() {
                    Some(pairs) => {
                        proof {
                            lemma_obj_model(pairs@);
                        }
                        let ghost models = obj_model(pairs@);
                        let ghost base = self.state@;
                        let mut i: usize = 0;
                        while i < pairs.len()
                            invariant
                                self.state.wf(),
                                self.id@ == old(self).id@,
                                self.config == old(self).config,
                                self.message_count == old(self).message_count,
                                self.next_op_id == old(self).next_op_id,
                                self.llm_operations@ == old(self).llm_operations@,
                                models == obj_model(pairs@),
                                models.len() == pairs@.len(),
                                i <= pairs@.len(),
                                self.state@ == base.union_prefer_right(
                                    map_of(models.take(i as int)),
                                ),
                            decreases pairs@.len() - i,
                        {
                            let key = pairs[i].0.clone();
                            let value = pairs[i].1.deep_copy();
                            self.state.insert(key, value);
                            proof {
                                assert(models.take(i + 1).drop_last() =~= models.take(i as int));
                                assert(models.take(i + 1).last() == models[i as int]);
                                assert(self.state@ =~= base.union_prefer_right(
                                    map_of(models.take(i + 1)),
                                ));
                            }
                            i += 1;
                        }
                        proof {
                            assert(models.take(models.len() as int) =~= models);
                            assert(u@.as_pairs()->0 =~= models);
                        }
                    },
                    None => {},
                },
                None => {},
            }
        } else if str_eq(mt, "coordination") {
            let digits = u64_to_string(self.message_count);
            let key = concat2("coordination_message_", digits.as_str());
            self.state.insert(key, message.payload.deep_copy());
        } else if str_eq(mt, "data_transfer") {
            match message.payload.get("data") {
                Some(d) => {
                    let tid: &str = match message.payload.get("transfer_id") {
                        Some(v) => match v.as_str() {
                            Some(t) => t,
                            None => "unknown",
                        },
                        None => "unknown",
                    };
                    let key = concat2("data_transfer_", tid);
                    let copied = d.deep_copy();
                    self.state.insert(key, copied);
                },
                None => {},
            }
        } else if str_eq(mt, "scraping_task") {
            self.handle_scraping_task(message);
        } else {
            let key = concat2("last_message_from_", message.from.0.as_str());
            self.state.insert(key, message.payload.deep_copy());
        }
    }

    /// Records a simulated scrape for a scraping task's target: a canned
    /// digest for a fetchable address, an error record otherwise.
    pub fn handle_scraping_task(&mut self, message: &Message) -> (nothing: ())
        requires
            old(self).wf(),
        ensures
            final(self).wf(),
            final(self).id@ == old(self).id@,
            final(self).config == old(self).config,
            final(self).message_count == old(self).message_count,
            final(self).next_op_id == old(self).next_op_id,
            final(self).llm_operations@ == old(self).llm_operations@,
            match message.payload@.get_field("target"@) {
                Some(t) => {
                    let url = text_or(t.get_field("url"@), ""@);
                    let title = text_or(t.get_field("title"@), "Unknown"@);
                    let id = text_or(t.get_field("id"@), "unknown"@);
                    if valid_url(url) {
                        final(self).state@ == old(self).state@.insert(
                            "scraped_data_"@ + id,
                            scrape_result(url, title, id),
                        )
                    } else {
                        final(self).state@ == old(self).state@.insert(
                            "scraping_error_"@ + id,
                            scrape_error(url, title),
                        )
                    }
                },
                None => final(self).state@ == old(self).state@,
            },
    {
        let target = match message.payload.get("target") {
            Some(t) => t,
            None => { return ; },
        };
        let url: &str = match target.get("url") {
            Some(v) => match v.as_str() {
                Some(t) => t,
                None => "",
            },
            None => "",
        };
        let title: &str = match target.get("title") {
            Some(v) => match v.as_str() {
                Some(t) => t,
                None => "Unknown",
            },
            None => "Unknown",
        };
        let task_id: &str = match target.get("id") {
            Some(v) => match v.as_str() {
                Some(t) => t,
                None => "unknown",
            },
            None => "unknown",
        };
        if crate::text::has_prefix(url, "http://") || crate::text::has_prefix(url, "https://") {
            let mut content = "Simulated content extracted from ".to_owned();
            content.append(url);
            let mut pairs: Vec<(String, Value)> = Vec::new();
            pairs.push(("task_id".to_owned(), Value::Str(task_id.to_owned())));
            pairs.push(("url".to_owned(), Value::Str(url.to_owned())));
            pairs.push(("title".to_owned(), Value::Str(title.to_owned())));
            pairs.push(("content".to_owned(), Value::Str(content)));
            pairs.push(("status".to_owned(), Value::Str("success".to_owned())));
            let record = Value::Obj(pairs);
            proof {
                lemma_obj_model(pairs@);
                assert(record@->Obj_0 =~= scrape_result(url@, title@, task_id@)->Obj_0);
                assert(record@ == scrape_result(url@, title@, task_id@));
            }
            let key = concat2("scraped_data_", task_id);
            self.state.insert(key, record);
        } else {
            let mut err_text = "Invalid URL: ".to_owned();
            err_text.append(url);
            let mut pairs: Vec<(String, Value)> = Vec::new();
            pairs.push(("error".to_owned(), Value::Str(err_text)));
            pairs.push(("url".to_owned(), Value::Str(url.to_owned())));
            pairs.push(("title".to_owned(), Value::Str(title.to_owned())));
            let record = Value::Obj(pairs);
            proof {
                lemma_obj_model(pairs@);
                assert(record@->Obj_0 =~= scrape_error(url@, title@)->Obj_0);
                assert(record@ == scrape_error(url@, title@));
            }
            let key = concat2("scraping_error_", task_id);
            self.state.insert(key, record);
        }
    }

    /// Applies a state action directly to the actor's state map, bypassing
    /// message classification. `Get` and `List` are side-effect-free.
    pub fn apply_state_action(&mut self, action: crate::agent::StateAction) -> (nothing: ())
        requires
            old(self).wf(),
        ensures
            final(self).wf(),
            final(self).id@ == old(self).id@,
            final(self).config == old(self).config,
            final(self).message_count == old(self).message_count,
            final(self).next_op_id == old(self).next_op_id,
            final(self).llm_operations@ == old(self).llm_operations@,
            match action@ {
                crate::agent::StateActionModel::Store(k, v) => final(self).state@ == old(
                    self,
                ).state@.insert(k, v),
                crate::agent::StateActionModel::Get(_) => final(self).state@ == old(self).state@,
                crate::agent::StateActionModel::Delete(k) => final(self).state@ == old(
                    self,
                ).state@.remove(k),
                crate::agent::StateActionModel::Clear => final(self).state@ == Map::<
                    Seq<char>,
                    ValModel,
                >::empty(),
                crate::agent::StateActionModel::List => final(self).state@ == old(self).state@,
            },
    {
        match action {
            crate::agent::StateAction::Store { key, value } => {
                self.state.insert(key, value);
            },
            crate::agent::StateAction::Get { key } => {
                let _ = self.state.get(key.as_str());
            },
            crate::agent::StateAction::Delete { key } => {
                let _ = self.state.remove(key.as_str());
            },
            crate::agent::StateAction::Clear => {
                self.state.clear();
            },
            crate::agent::StateAction::List => {
                let _ = self.state.keys();
            },
        }
    }

    /// Routes one inbound message. The destination is checked first: a
    /// message for another agent is never applied to the local state — it is
    /// forwarded when the transport is configured and dropped when not. A
    /// local message with an `llm_task` tag goes to the executor when the LLM
    /// is enabled and is otherwise parked verbatim under a pending-task key
    /// with no operation record; anything else is handled by message type.
    pub fn process_message<P: LLMProvider>(&mut self, message: Message, provider: &mut P) -> (r:
        DispatchOutcome)
        requires
            old(self).wf(),
            old(provider).inv(),
            old(self).message_count < u64::MAX,
            old(self).next_op_id < u64::MAX,
        ensures
            final(self).wf(),
            final(provider).inv(),
            final(self).id@ == old(self).id@,
            final(self).config == old(self).config,
            final(self).message_count == old(self).message_count + 1,
            ({
                let p = message.payload@;
                &&& (message.to@ != old(self).id@ ==> {
                    &&& final(self).state@ == old(self).state@
                    &&& final(self).llm_operations@ == old(self).llm_operations@
                    &&& final(provider).history() == old(provider).history()
                    &&& (old(self).config.nats_enabled ==> (r matches DispatchOutcome::Forwarded {
                        subject,
                        message: m,
                    } && subject@ == agent_subject(message.to@) && m == message))
                    &&& (!old(self).config.nats_enabled ==> r matches DispatchOutcome::Dropped)
                })
                &&& (message.to@ == old(self).id@ ==> {
                    &&& (r matches DispatchOutcome::Handled { priority } && priority
                        == spec_priority(p))
                    &&& match llm_task_field(p) {
                        Some(_) => if old(self).config.llm_enabled {
                            &&& final(self).next_op_id == old(self).next_op_id + 1
                            &&& llm_task_effect(
                                old(self).state@,
                                final(self).state@,
                                old(self).llm_operations@,
                                final(self).llm_operations@,
                                old(self).next_op_id,
                                p,
                                old(provider).history(),
                                final(provider).history(),
                            )
                        } else {
                            &&& final(self).state@ == old(self).state@.insert(
                                pending_task_key((old(self).message_count + 1) as u64),
                                p,
                            )
                            &&& final(self).llm_operations@ == old(self).llm_operations@
                            &&& final(provider).history() == old(provider).history()
                        },
                        None => {
                            &&& regular_effect(
                                old(self).state@,
                                final(self).state@,
                                message.from@,
                                p,
                                (old(self).message_count + 1) as u64,
                            )
                            &&& final(self).llm_operations@ == old(self).llm_operations@
                            &&& final(provider).history() == old(provider).history()
                        },
                    }
                })
            }),
    {
        self.message_count = self.message_count + 1;
        let priority = classify_priority(&message.payload);
        if !str_eq(message.to.0.as_str(), self.id.0.as_str()) {
            if self.config.nats_enabled {
                let subject = concat2("agent.", message.to.0.as_str());
                return DispatchOutcome::Forwarded { subject, message };
            }
            return DispatchOutcome::Dropped;
        }
        let has_llm_task = match message.payload.get("llm_task") {
            Some(v) => match v.as_str() {
                Some(_) => true,
                None => false,
            },
            None => false,
        };
        if has_llm_task {
            if self.config.llm_enabled {
                self.handle_llm_task(&message, provider);
            } else {
                let digits = u64_to_string(self.message_count);
                let key = concat2("pending_llm_task_", digits.as_str());
                let Message { payload, .. } = message;
                self.state.insert(key, payload);
            }
        } else {
            self.handle_regular_message(&message);
        }
        DispatchOutcome::Handled { priority }
    }
}

} // verus!
