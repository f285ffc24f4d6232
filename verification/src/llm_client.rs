//! The LLM provider abstraction and its client: requests, responses, a
//! deterministic mock provider, and a bounded retry loop whose contract pins
//! the exact sequence of provider outcomes it observed.

use vstd::prelude::*;

use crate::Error;
use crate::kvmap::KvMap;
use crate::text::{contains_substr, spec_contains, spec_u64_string, str_eq, u64_to_string};
use crate::value::{ValModel, Value};

verus! {

/// A request to the LLM provider collaborator. The sampling temperature is
/// carried in tenths, so that the request stays within plain integer values.
pub struct LLMRequest {
    pub prompt: String,
    pub context: KvMap<Value>,
    pub max_tokens: Option<u32>,
    pub temperature_tenths: Option<u32>,
}

impl LLMRequest {
    /// Well-formedness: the context map is usable.
    pub open spec fn wf(&self) -> bool {
        self.context.wf()
    }
}

/// Token accounting reported by a provider.
#[derive(Debug)]
pub struct LLMUsage {
    pub prompt_tokens: u32,
    pub completion_tokens: u32,
    pub total_tokens: u32,
}

impl Default for LLMUsage {
    fn default() -> (r: Self)
        ensures
            r.prompt_tokens == 0,
            r.completion_tokens == 0,
            r.total_tokens == 0,
    {
        LLMUsage { prompt_tokens: 0, completion_tokens: 0, total_tokens: 0 }
    }
}

/// A provider's answer to one completion call.
#[derive(Debug)]
pub struct LLMResponse {
    pub content: String,
    pub usage: LLMUsage,
    pub provider: String,
    pub model: String,
}

/// Client-side defaults for completion calls.
#[derive(Debug)]
pub struct LLMConfig {
    pub max_tokens: u32,
    pub temperature_tenths: u32,
    pub timeout_seconds: u64,
}

impl Default for LLMConfig {
    fn default() -> (r: Self)
        ensures
            r.max_tokens == 1000,
            r.temperature_tenths == 7,
            r.timeout_seconds == 30,
    {
        LLMConfig { max_tokens: 1000, temperature_tenths: 7, timeout_seconds: 30 }
    }
}

/// What one completion attempt came to: the answer's characters, or a failure
/// split by whether the retry policy may try again.
pub enum AttemptOutcome {
    Succeeded(Seq<char>),
    Failed(bool),
}

/// The outcome recorded for a completion result.
pub open spec fn outcome_of(r: Result<LLMResponse, Error>) -> AttemptOutcome {
    match r {
        Ok(resp) => AttemptOutcome::Succeeded(resp.content@),
        Err(e) => AttemptOutcome::Failed(e.spec_is_retryable()),
    }
}

/// An LLM provider. Implementations track the outcome of every completion
/// call they have answered in `history`; the contracts of the retry loop and
/// of the task executor are stated over that history.
pub trait LLMProvider: Sized {
    /// The outcomes of all completion calls answered so far, oldest first.
    spec fn history(&self) -> Seq<AttemptOutcome>;

    /// Whether the provider is in a usable state.
    spec fn inv(&self) -> bool;

    /// One completion attempt. Nothing is promised about which outcome
    /// comes back, only that the call is recorded.
    fn complete(&mut self, request: &LLMRequest) -> (r: Result<LLMResponse, Error>)
        requires
            old(self).inv(),
            request.wf(),
        ensures
            final(self).inv(),
            final(self).history() == old(self).history().push(outcome_of(r)),
    ;

    /// Waits out a retry delay. The host decides how; the history does not
    /// change.
    fn pause(&mut self, delay_ms: u64)
        requires
            old(self).inv(),
        ensures
            final(self).inv(),
            final(self).history() == old(self).history(),
    ;

    fn provider_name(&self) -> &'static str;
}

/// The key of the canned response a mock completion answers with, decided by
/// the prompt's words and the request's `task` context field.
pub open spec fn mock_response_key(prompt: Seq<char>, ctx: Map<Seq<char>, ValModel>) -> Seq<char> {
    if spec_contains(prompt, "summarize"@) || ctx_task_is(ctx, "summarization"@) {
        "summarize"@
    } else if spec_contains(prompt, "workflow"@) || ctx_task_is(ctx, "workflow_planning"@) {
        "plan_workflow"@
    } else {
        "reason"@
    }
}

/// Whether the context's `task` field is the string `t`.
pub open spec fn ctx_task_is(ctx: Map<Seq<char>, ValModel>, t: Seq<char>) -> bool {
    ctx.contains_key("task"@) && ctx["task"@].as_text() == Some(t)
}

/// The canned response text for `key`, with a fixed default.
pub open spec fn mock_content(responses: Map<Seq<char>, Seq<char>>, key: Seq<char>) -> Seq<char> {
    if responses.contains_key(key) {
        responses[key]
    } else {
        "Mock response: Task processed."@
    }
}

/// The mock's canned table: exactly one answer per task kind.
pub open spec fn mock_default_responses() -> Map<Seq<char>, Seq<char>> {
    Map::empty().insert("summarize"@, "Mock summary: Data analyzed successfully."@).insert(
        "plan_workflow"@,
        "[{\"step_id\": \"1\", \"agent_type\": \"mock\", \"action\": \"process\", \"inputs\": [\"data\"], \"outputs\": [\"result\"]}]"@,
    ).insert("reason"@, "Mock reasoning: Task completed with mock logic."@)
}

/// A deterministic provider for development and tests: it answers every call
/// from a table of canned responses and never fails.
pub struct MockLLMProvider {
    pub responses: KvMap<String>,
    pub calls: Ghost<Seq<AttemptOutcome>>,
}

impl MockLLMProvider {
    pub fn new() -> (r: Self)
        ensures
            r.inv(),
            r.history() == Seq::<AttemptOutcome>::empty(),
            r.responses@ == mock_default_responses(),
    {
        proof {
            reveal_strlit("summarize");
            reveal_strlit("plan_workflow");
            reveal_strlit("reason");
            assert("summarize"@.len() == 9);
            assert("plan_workflow"@.len() == 13);
            assert("reason"@.len() == 6);
        }
        let mut responses: KvMap<String> = KvMap::new();
        responses.insert(
            "summarize".to_owned(),
            "Mock summary: Data analyzed successfully.".to_owned(),
        );
        responses.insert(
            "plan_workflow".to_owned(),
            "[{\"step_id\": \"1\", \"agent_type\": \"mock\", \"action\": \"process\", \"inputs\": [\"data\"], \"outputs\": [\"result\"]}]".to_owned(),
        );
        responses.insert(
            "reason".to_owned(),
            "Mock reasoning: Task completed with mock logic.".to_owned(),
        );
        let r = MockLLMProvider { responses, calls: Ghost(Seq::empty()) };
        proof {
            assert(r.responses@ =~= mock_default_responses());
        }
        r
    }

    /// Replaces the canned response under `key`.
    pub fn with_response(self, key: &str, response: &str) -> (r: Self)
        requires
            self.inv(),
        ensures
            r.inv(),
            r.responses@ == self.responses@.insert(key@, response@),
            r.history() == self.history(),
    {
        let mut this = self;
        this.responses.insert(key.to_owned(), response.to_owned());
        this
    }
}

impl LLMProvider for MockLLMProvider {
    closed spec fn history(&self) -> Seq<AttemptOutcome> {
        self.calls@
    }

    closed spec fn inv(&self) -> bool {
        self.responses.wf()
    }

    /// Always succeeds; the content is the canned response selected by
    /// `mock_response_key`, the usage a fixed count, the provider `"mock"`.
    fn complete(&mut self, request: &LLMRequest) -> (r: Result<LLMResponse, Error>)
        ensures
            r matches Ok(resp) && resp.content@ == mock_content(
                old(self).responses@,
                mock_response_key(request.prompt@, request.context@),
            ) && resp.provider@ == "mock"@ && resp.model@ == "mock-model"@
                && resp.usage.prompt_tokens == 10 && resp.usage.completion_tokens == 20
                && resp.usage.total_tokens == 30,
            final(self).responses@ == old(self).responses@,
    {
        let summarization_task = match request.context.get("task") {
            Some(v) => match v.as_str() {
                Some(s) => str_eq(s, "summarization"),
                None => false,
            },
            None => false,
        };
        let workflow_task = match request.context.get("task") {
            Some(v) => match v.as_str() {
                Some(s) => str_eq(s, "workflow_planning"),
                None => false,
            },
            None => false,
        };
        let key: &str = if contains_substr(request.prompt.as_str(), "summarize")
            || summarization_task {
            "summarize"
        } else if contains_substr(request.prompt.as_str(), "workflow") || workflow_task {
            "plan_workflow"
        } else {
            "reason"
        };
        proof {
            assert(key@ == mock_response_key(request.prompt@, request.context@));
        }
        let content: String = match self.responses.get(key) {
            Some(text) => text.clone(),
            None => "Mock response: Task processed.".to_owned(),
        };
        let response = LLMResponse {
            content,
            usage: LLMUsage { prompt_tokens: 10, completion_tokens: 20, total_tokens: 30 },
            provider: "mock".to_owned(),
            model: "mock-model".to_owned(),
        };
        let r = Ok(response);
        proof {
            self.calls@ = self.calls@.push(outcome_of(r));
        }
        r
    }

    fn pause(&mut self, delay_ms: u64) {
    }

    fn provider_name(&self) -> (r: &'static str)
        ensures
            r@ == "mock"@,
    {
        "mock"
    }
}

/// A provider that fails a set number of leading attempts and then succeeds:
/// the deterministic stand-in for an unreachable or rate-limited provider in
/// development and tests.
pub struct FlakyProvider {
    pub failures_remaining: u64,
    pub retryable: bool,
    pub attempts_made: u64,
    pub calls: Ghost<Seq<AttemptOutcome>>,
}

impl FlakyProvider {
    /// A provider whose first `failures` attempts fail, retryably or not.
    pub fn new(failures: u64, retryable: bool) -> (r: Self)
        ensures
            r.inv(),
            r.history() == Seq::<AttemptOutcome>::empty(),
            r.attempts_made == 0,
            r.failures_remaining == failures,
            r.retryable == retryable,
    {
        FlakyProvider { failures_remaining: failures, retryable, attempts_made: 0, calls: Ghost(Seq::empty()) }
    }

    /// How many completion calls this provider has answered.
    pub fn attempts(&self) -> (r: u64)
        requires
            self.inv(),
        ensures
            self.history().len() <= u64::MAX ==> r == self.history().len(),
    {
        self.attempts_made
    }
}

impl LLMProvider for FlakyProvider {
    closed spec fn history(&self) -> Seq<AttemptOutcome> {
        self.calls@
    }

    closed spec fn inv(&self) -> bool {
        if self.calls@.len() <= u64::MAX {
            self.attempts_made == self.calls@.len()
        } else {
            self.attempts_made == u64::MAX
        }
    }

    /// Fails while failures remain — with a timeout when retryable, a plain
    /// provider error when not — and then answers a fixed text.
    fn complete(&mut self, request: &LLMRequest) -> (r: Result<LLMResponse, Error>)
        ensures
            old(self).failures_remaining > 0 ==> r is Err && (r matches Err(e)
                ==> e.spec_is_retryable() == old(self).retryable),
            old(self).failures_remaining == 0 ==> r is Ok,
            final(self).retryable == old(self).retryable,
            final(self).failures_remaining == if old(self).failures_remaining > 0 {
                (old(self).failures_remaining - 1) as u64
            } else {
                0u64
            },
    {
        let r: Result<LLMResponse, Error> = if self.failures_remaining > 0 {
            self.failures_remaining = self.failures_remaining - 1;
            if self.retryable {
                Err(Error::LLMTimeout { timeout: 1 })
            } else {
                Err(Error::LLMProvider("provider unreachable".to_owned()))
            }
        } else {
            Ok(
                LLMResponse {
                    content: "Recovered response.".to_owned(),
                    usage: LLMUsage { prompt_tokens: 1, completion_tokens: 1, total_tokens: 2 },
                    provider: "flaky".to_owned(),
                    model: "flaky-model".to_owned(),
                },
            )
        };
        if self.attempts_made < u64::MAX {
            self.attempts_made = self.attempts_made + 1;
        } else {
            self.attempts_made = u64::MAX;
        }
        proof {
            self.calls@ = self.calls@.push(outcome_of(r));
        }
        r
    }

    fn pause(&mut self, delay_ms: u64) {
    }

    fn provider_name(&self) -> (r: &'static str)
        ensures
            r@ == "flaky"@,
    {
        "flaky"
    }
}

/// Runs one completion with the bounded retry policy: after a retryable
/// failure the loop waits the error kind's delay and tries again, up to
/// `max_retries` retries; a success or a non-retryable failure ends it at
/// once. The contract pins the attempts made: all but the last failed
/// retryably, the result is the last attempt's outcome, and the loop stopped
/// early only for a terminal outcome.
#[verifier::loop_isolation(false)]
pub fn retry_llm_operation<P: LLMProvider>(
    provider: &mut P,
    request: &LLMRequest,
    max_retries: u32,
) -> (r: Result<LLMResponse, Error>)
    requires
        old(provider).inv(),
        request.wf(),
    ensures
        final(provider).inv(),
        ({
            let pre = old(provider).history();
            let post = final(provider).history();
            &&& post.len() > pre.len()
            &&& post.len() <= pre.len() + max_retries + 1
            &&& post.subrange(0, pre.len() as int) == pre
            &&& forall|i: int|
                pre.len() <= i < post.len() - 1 ==> #[trigger] post[i] == AttemptOutcome::Failed(
                    true,
                )
            &&& post.last() == outcome_of(r)
            &&& (r is Ok || (r matches Err(e) && !e.spec_is_retryable()) || post.len() == pre.len()
                + max_retries + 1)
        }),
{
    let ghost pre = provider.history();
    let mut attempt: u32 = 0;
    loop
        invariant
            provider.inv(),
            attempt <= max_retries,
            provider.history().len() == pre.len() + attempt,
            provider.history().subrange(0, pre.len() as int) == pre,
            forall|i: int|
                pre.len() <= i < provider.history().len() ==> #[trigger] provider.history()[i]
                    == AttemptOutcome::Failed(true),
        decreases max_retries - attempt,
    {
        let ghost h0 = provider.history();
        let result = provider.complete(request);
        proof {
            assert(provider.history().subrange(0, pre.len() as int) =~= pre);
        }
        match result {
            Ok(resp) => {
                return Ok(resp);
            },
            Err(e) => {
                if attempt < max_retries && e.is_retryable() {
                    let delay = e.retry_delay_ms();
                    provider.pause(delay);
                    attempt += 1;
                } else {
                    return Err(e);
                }
            },
        }
    }
}

/// If a retryable error is injected on every attempt — every recorded outcome
/// of the call is a retryable failure — then the retry loop made exactly
/// `max_retries + 1` attempts before its caller falls back. The premises are
/// the retry loop's postcondition.
pub proof fn lemma_retryable_exhausts_attempts(
    pre: Seq<AttemptOutcome>,
    post: Seq<AttemptOutcome>,
    max_retries: u32,
    r: Result<LLMResponse, Error>,
)
    requires
        post.len() > pre.len(),
        post.len() <= pre.len() + max_retries + 1,
        post.last() == outcome_of(r),
        r is Ok || (r matches Err(e) && !e.spec_is_retryable()) || post.len() == pre.len()
            + max_retries + 1,
        forall|i: int|
            pre.len() <= i < post.len() ==> #[trigger] post[i] == AttemptOutcome::Failed(true),
    ensures
        post.len() == pre.len() + max_retries + 1,
{
    assert(post[post.len() - 1] == AttemptOutcome::Failed(true));
    match r {
        Ok(resp) => {
            assert(false);
        },
        Err(e) => {
            assert(e.spec_is_retryable());
        },
    }
}

/// A non-retryable error ends the retry loop after exactly one attempt: if
/// the first recorded outcome of the call is a non-retryable failure, exactly
/// one attempt occurred before the caller falls back. The premises are the
/// retry loop's postcondition.
pub proof fn lemma_fatal_stops_after_one_attempt(
    pre: Seq<AttemptOutcome>,
    post: Seq<AttemptOutcome>,
    max_retries: u32,
    r: Result<LLMResponse, Error>,
)
    requires
        post.len() > pre.len(),
        post[pre.len() as int] == AttemptOutcome::Failed(false),
        forall|i: int|
            pre.len() <= i < post.len() - 1 ==> #[trigger] post[i] == AttemptOutcome::Failed(true),
    ensures
        post.len() == pre.len() + 1,
{
    if post.len() > pre.len() + 1 {
        assert(post[pre.len() as int] == AttemptOutcome::Failed(true));
    }
}

/// One step of a planned workflow.
#[derive(Debug, PartialEq)]
pub struct WorkflowStep {
    pub step_id: String,
    pub agent_type: String,
    pub action: String,
    pub inputs: Vec<String>,
    pub outputs: Vec<String>,
}

/// The model of one workflow step.
#[verifier::ext_equal]
pub struct WorkflowStepModel {
    pub step_id: Seq<char>,
    pub agent_type: Seq<char>,
    pub action: Seq<char>,
    pub inputs: Seq<Seq<char>>,
    pub outputs: Seq<Seq<char>>,
}

/// The character sequences of a vector of strings.
pub open spec fn string_models(items: Seq<String>) -> Seq<Seq<char>> {
    Seq::new(items.len(), |i: int| items[i]@)
}

impl View for WorkflowStep {
    type V = WorkflowStepModel;

    open spec fn view(&self) -> WorkflowStepModel {
        WorkflowStepModel {
            step_id: self.step_id@,
            agent_type: self.agent_type@,
            action: self.action@,
            inputs: string_models(self.inputs@),
            outputs: string_models(self.outputs@),
        }
    }
}

/// The models of a vector of workflow steps.
pub open spec fn step_models(steps: Seq<WorkflowStep>) -> Seq<WorkflowStepModel> {
    Seq::new(steps.len(), |i: int| steps[i]@)
}

/// The client over a provider: builds requests from the default
/// configuration and hands results back as plain values.
pub struct LLMClient<P: LLMProvider> {
    provider: P,
    default_config: LLMConfig,
}

impl<P: LLMProvider> LLMClient<P> {
    /// The provider's recorded outcomes.
    pub closed spec fn history(&self) -> Seq<AttemptOutcome> {
        self.provider.history()
    }

    pub closed spec fn inv(&self) -> bool {
        self.provider.inv()
    }

    /// The default configuration requests are built from.
    pub closed spec fn spec_config(&self) -> LLMConfig {
        self.default_config
    }

    pub fn new(provider: P, config: LLMConfig) -> (r: Self)
        requires
            provider.inv(),
        ensures
            r.inv(),
            r.history() == provider.history(),
            r.spec_config() == config,
    {
        LLMClient { provider, default_config: config }
    }

    pub fn provider_name(&self) -> &'static str {
        self.provider.provider_name()
    }

    /// The completion request this client sends for `prompt` and `context`:
    /// exactly those, under the default token and temperature limits.
    pub fn build_request(&self, prompt: &str, context: KvMap<Value>) -> (r: LLMRequest)
        ensures
            r.prompt@ == prompt@,
            r.context == context,
            r.max_tokens == Some(self.spec_config().max_tokens),
            r.temperature_tenths == Some(self.spec_config().temperature_tenths),
    {
        LLMRequest {
            prompt: prompt.to_owned(),
            context,
            max_tokens: Some(self.default_config.max_tokens),
            temperature_tenths: Some(self.default_config.temperature_tenths),
        }
    }

    /// One free-text completion with the default configuration. The result is
    /// exactly the provider's answer: the returned text on success, the
    /// provider's error otherwise, recorded as one attempt.
    pub fn reasoning_request(&mut self, prompt: &str, context: KvMap<Value>) -> (r: Result<
        String,
        Error,
    >)
        requires
            old(self).inv(),
            context.wf(),
        ensures
            final(self).inv(),
            final(self).history() == old(self).history().push(
                match r {
                    Ok(s) => AttemptOutcome::Succeeded(s@),
                    Err(e) => AttemptOutcome::Failed(e.spec_is_retryable()),
                },
            ),
    {
        let request = self.build_request(prompt, context);
        match self.provider.complete(&request) {
            Ok(resp) => Ok(resp.content),
            Err(e) => Err(e),
        }
    }
}

/// The summarization prompt: the item count and the items rendered as JSON,
/// between fixed instructions.
pub open spec fn summarize_prompt(n: u64, body: Seq<char>) -> Seq<char> {
    "Please analyze and summarize the following "@ + spec_u64_string(n) + " data items:\n\n"@
        + body + "\n\nProvide a comprehensive summary highlighting key insights and patterns."@
}

/// Builds the summarization prompt.
pub fn make_summarize_prompt(n: u64, body: &str) -> (r: String)
    ensures
        r@ == summarize_prompt(n, body@),
{
    let mut out = "Please analyze and summarize the following ".to_owned();
    let digits = u64_to_string(n);
    out.append(digits.as_str());
    out.append(" data items:\n\n");
    out.append(body);
    out.append("\n\nProvide a comprehensive summary highlighting key insights and patterns.");
    out
}

/// The workflow-planning prompt: the task and the available agents rendered
/// as text, between fixed instructions.
pub open spec fn plan_prompt(task: Seq<char>, agents: Seq<char>) -> Seq<char> {
    "Given the task: '"@ + task + "' and available agents: "@ + agents
        + ", create a detailed workflow plan. Respond with a JSON array of workflow steps."@
}

/// Builds the workflow-planning prompt.
pub fn make_plan_prompt(task: &str, agents: &str) -> (r: String)
    ensures
        r@ == plan_prompt(task@, agents@),
{
    let mut out = "Given the task: '".to_owned();
    out.append(task);
    out.append("' and available agents: ");
    out.append(agents);
    out.append(", create a detailed workflow plan. Respond with a JSON array of workflow steps.");
    out
}

impl<P: LLMProvider> LLMClient<P> {
    /// Asks the provider for a summary of `data`: the prompt carries the item
    /// count and the items rendered as JSON, the context marks the task as
    /// summarization. The result is the provider's answer, recorded as one
    /// attempt.
    pub fn summarize_data(&mut self, data: Vec<Value>) -> (r: Result<String, Error>)
        requires
            old(self).inv(),
            data@.len() <= 0x7fffffffffffffff,
        ensures
            final(self).inv(),
            final(self).history() == old(self).history().push(
                match r {
                    Ok(s) => AttemptOutcome::Succeeded(s@),
                    Err(e) => AttemptOutcome::Failed(e.spec_is_retryable()),
                },
            ),
    {
        let n = data.len();
        let mut context: KvMap<Value> = KvMap::new();
        context.insert("task".to_owned(), Value::Str("summarization".to_owned()));
        context.insert("data_count".to_owned(), Value::Int(n as i64));
        let data_value = Value::Arr(data);
        let body = crate::json::value_to_json(&data_value);
        let prompt = make_summarize_prompt(n as u64, body.as_str());
        self.reasoning_request(prompt.as_str(), context)
    }

    /// Asks the provider for a workflow plan and reads it back: the call is
    /// `Ok` exactly when the provider's answer was the wire form of a plan,
    /// and then the returned steps are that plan; an answer in any other
    /// shape is an error naming the failed parse, and a provider failure is
    /// passed through with its retryability.
    pub fn plan_workflow(&mut self, task_description: &str, available_agents: Vec<String>) -> (r:
        Result<Vec<WorkflowStep>, Error>)
        requires
            old(self).inv(),
        ensures
            final(self).inv(),
            final(self).history().len() == old(self).history().len() + 1,
            final(self).history().subrange(0, old(self).history().len() as int) == old(
                self,
            ).history(),
            r matches Ok(steps) ==> final(self).history().last() == AttemptOutcome::Succeeded(
                crate::json::steps_json(step_models(steps@)),
            ) && crate::json::plan_plain(step_models(steps@)),
            match final(self).history().last() {
                AttemptOutcome::Succeeded(c) => {
                    &&& ((exists|sm: Seq<WorkflowStepModel>|
                        crate::json::plan_plain(sm) && c == crate::json::steps_json(sm)) <==> r
                        is Ok)
                    &&& (r matches Err(e) ==> (e matches Error::Custom(m) && m@
                        == "Failed to parse workflow plan"@))
                },
                AttemptOutcome::Failed(b) => r matches Err(e) && e.spec_is_retryable() == b,
            },
    {
        let mut agent_values: Vec<Value> = Vec::new();
        let mut i: usize = 0;
        while i < available_agents.len()
            invariant
                i <= available_agents@.len(),
            decreases available_agents@.len() - i,
        {
            agent_values.push(Value::Str(available_agents[i].clone()));
            i += 1;
        }
        let agents_value = Value::Arr(agent_values);
        let agents_text = crate::json::value_to_json(&agents_value);
        let mut context: KvMap<Value> = KvMap::new();
        context.insert("task".to_owned(), Value::Str("workflow_planning".to_owned()));
        context.insert("available_agents".to_owned(), agents_value);
        let prompt = make_plan_prompt(task_description, agents_text.as_str());
        let ghost h0 = self.history();
        let content = match self.reasoning_request(prompt.as_str(), context) {
            Ok(content) => content,
            Err(e) => {
                proof {
                    assert(self.history().subrange(0, h0.len() as int) =~= h0);
                }
                return Err(e);
            },
        };
        proof {
            assert(self.history().subrange(0, h0.len() as int) =~= h0);
        }
        match crate::json::parse_workflow_steps(content.as_str()) {
            Some(steps) => Ok(steps),
            None => Err(Error::Custom("Failed to parse workflow plan".to_owned())),
        }
    }
}

/// A client backed by the deterministic mock provider, for development and
/// tests; a host that can reach a real provider wires its own.
pub fn create_llm_client() -> (r: LLMClient<MockLLMProvider>)
    ensures
        r.inv(),
        r.history() == Seq::<AttemptOutcome>::empty(),
        r.spec_config() == (LLMConfig { max_tokens: 1000, temperature_tenths: 7, timeout_seconds: 30 }),
{
    let provider = MockLLMProvider::new();
    let config = LLMConfig::default();
    LLMClient::new(provider, config)
}

} // verus!
