//! The client of the language model: one conversational turn with its rounds of
//! tool calls, and one API call with its retries behind a circuit breaker.

use vstd::prelude::*;

use crate::circuit_breaker::{Breaker, CircuitBreaker, CircuitState};
use crate::error::{BridgeError, BridgeResult, ErrorView};
use crate::http::{is_success, success, HttpReply, HttpRequest, Method, RequestView};
use crate::json::{
    json_views, lookup, member, member_views, members_are_found_by_name, Json, JsonView, Member,
};
use crate::mcp_client::{call_params, McpClient, OutcomeView, Tool, ToolOutcome};
use crate::models::{
    block_views, duplicate_messages, duplicate_tools, message_views, tool_views, BlockView,
    ClaudeMessage, ClaudeRequest, ClaudeResponse, ClaudeTool, ContentBlock, MessageView,
    ResponseView, ToolView,
};
use crate::text::{
    concat2, decimal, decimal_of, join, joined, joining_separates_parts, opt_view, same_text,
    views,
};

verus! {

pub const CLAUDE_API_URL: &'static str = "https://api.anthropic.com/v1/messages";

/// Listing models costs nothing and still authenticates the key.
pub const CLAUDE_MODELS_URL: &'static str = "https://api.anthropic.com/v1/models?limit=1";

/// Rounds of tool calls in one turn.
pub const MAX_TOOL_ROUNDS: usize = 10;

/// How often an API call that failed is tried again.
pub const MAX_RETRIES: u32 = 3;

/// The wait before the first retry. It doubles with every further one: 1 s, 2 s, 4 s.
pub const BACKOFF_BASE_MS: u64 = 1000;

/// How many seconds a check of the key waits.
pub const CHECK_TIMEOUT_S: u64 = 5;

// What the model said.

pub open spec fn text_block(b: BlockView) -> bool {
    b.block_type == "text"@ && b.text is Some
}

/// The texts among what the model said.
pub open spec fn said(blocks: Seq<BlockView>) -> Seq<Seq<char>> {
    blocks.filter(|b: BlockView| text_block(b)).map_values(|b: BlockView| b.text->0)
}

/// The text of a reply: its texts, each on a line of its own.
pub open spec fn reply_text(blocks: Seq<BlockView>) -> Seq<char> {
    joined(said(blocks), "\n"@)
}

pub open spec fn text_or_null(t: Option<Seq<char>>) -> JsonView {
    match t {
        Some(s) => JsonView::Text(s),
        None => JsonView::Null,
    }
}

/// A block in JSON: all its fields, the missing ones as `null`.
pub open spec fn block_json(b: BlockView) -> JsonView {
    JsonView::Object(
        seq![
            ("type"@, JsonView::Text(b.block_type)),
            ("text"@, text_or_null(b.text)),
            ("id"@, text_or_null(b.id)),
            ("name"@, text_or_null(b.name)),
            (
                "input"@,
                match b.input {
                    Some(v) => v,
                    None => JsonView::Null,
                },
            ),
        ],
    )
}

pub open spec fn blocks_json(blocks: Seq<BlockView>) -> Seq<JsonView> {
    blocks.map_values(|b: BlockView| block_json(b))
}

/// A tool that the model wants called.
#[derive(Debug)]
pub struct ToolUse {
    pub id: String,
    pub name: String,
    pub input: Json,
}

pub struct ToolUseView {
    pub id: Seq<char>,
    pub name: Seq<char>,
    pub input: JsonView,
}

impl View for ToolUse {
    type V = ToolUseView;

    open spec fn view(&self) -> ToolUseView {
        ToolUseView { id: self.id@, name: self.name@, input: self.input@ }
    }
}

pub open spec fn use_views(v: Seq<ToolUse>) -> Seq<ToolUseView> {
    v.map_values(|u: ToolUse| u@)
}

pub open spec fn text_or_empty(t: Option<Seq<char>>) -> Seq<char> {
    match t {
        Some(s) => s,
        None => Seq::empty(),
    }
}

/// The call that a block asks for; an empty object where it gives no input.
pub open spec fn requested(b: BlockView) -> ToolUseView {
    ToolUseView {
        id: text_or_empty(b.id),
        name: text_or_empty(b.name),
        input: match b.input {
            Some(v) => v,
            None => JsonView::Object(Seq::empty()),
        },
    }
}

pub open spec fn tool_block(b: BlockView) -> bool {
    b.block_type == "tool_use"@
}

/// The calls that a reply asks for, in order.
pub open spec fn tool_uses(blocks: Seq<BlockView>) -> Seq<ToolUseView> {
    blocks.filter(|b: BlockView| tool_block(b)).map_values(|b: BlockView| requested(b))
}

/// The answer to one call, as the model is told of it.
pub open spec fn tool_result(id: Seq<char>, outcome: OutcomeView) -> JsonView {
    JsonView::Object(
        seq![
            ("type"@, JsonView::Text("tool_result"@)),
            ("tool_use_id"@, JsonView::Text(id)),
            ("content"@, JsonView::Text(outcome.text)),
            ("is_error"@, JsonView::Bool(outcome.is_error)),
        ],
    )
}

proof fn lemma_said_push(blocks: Seq<BlockView>, b: BlockView)
    ensures
        said(blocks.push(b)) == (if text_block(b) {
            said(blocks).push(b.text->0)
        } else {
            said(blocks)
        }),
{
    reveal(Seq::filter);
    assert(blocks.push(b).drop_last() =~= blocks);
    if text_block(b) {
        assert(said(blocks.push(b)) =~= said(blocks).push(b.text->0));
    }
}

proof fn lemma_tool_uses_push(blocks: Seq<BlockView>, b: BlockView)
    ensures
        tool_uses(blocks.push(b)) == (if tool_block(b) {
            tool_uses(blocks).push(requested(b))
        } else {
            tool_uses(blocks)
        }),
{
    reveal(Seq::filter);
    assert(blocks.push(b).drop_last() =~= blocks);
    if tool_block(b) {
        assert(tool_uses(blocks.push(b)) =~= tool_uses(blocks).push(requested(b)));
    }
}

fn json_or_null(t: &Option<String>) -> (r: Json)
    ensures
        r@ == text_or_null(opt_view(*t)),
{
    match t {
        Some(s) => Json::text(s.as_str()),
        None => Json::Null,
    }
}

fn string_or_empty(t: &Option<String>) -> (r: String)
    ensures
        r@ == text_or_empty(opt_view(*t)),
{
    match t {
        Some(s) => s.clone(),
        None => String::new(),
    }
}

/// A tool as the model is told of it.
pub fn to_claude_tool(t: &Tool) -> (r: ClaudeTool)
    ensures
        r@ == t@,
{
    ClaudeTool {
        name: t.name.clone(),
        description: t.description.clone(),
        input_schema: t.input_schema.duplicate(),
    }
}

/// The text of a reply.
pub fn extract_text(blocks: &Vec<ContentBlock>) -> (r: String)
    ensures
        r@ == reply_text(block_views(blocks@)),
{
    let ghost all = block_views(blocks@);
    let mut texts: Vec<String> = Vec::new();
    let mut i: usize = 0;
    proof {
        reveal(Seq::filter);
        assert(said(all.take(0)) =~= Seq::empty());
        assert(views(texts@) =~= Seq::empty());
    }
    while i < blocks.len()
        invariant
            all == block_views(blocks@),
            i <= blocks.len(),
            views(texts@) == said(all.take(i as int)),
        decreases blocks.len() - i,
    {
        let ghost was = views(texts@);
        if same_text(blocks[i].block_type.as_str(), "text") {
            match &blocks[i].text {
                Some(t) => {
                    texts.push(t.clone());
                    assert(views(texts@) =~= was.push(t@));
                },
                None => {},
            }
        }
        proof {
            assert(all.take(i + 1) =~= all.take(i as int).push(blocks@[i as int]@));
            lemma_said_push(all.take(i as int), blocks@[i as int]@);
        }
        i = i + 1;
    }
    assert(all.take(blocks.len() as int) =~= all);
    join(&texts, "\n")
}

/// What the model said, in JSON.
pub fn content_blocks_to_value(blocks: &Vec<ContentBlock>) -> (r: Vec<Json>)
    ensures
        json_views(r@) == blocks_json(block_views(blocks@)),
{
    let mut r: Vec<Json> = Vec::new();
    let mut i: usize = 0;
    while i < blocks.len()
        invariant
            i <= blocks.len(),
            r@.len() == i,
            forall|k: int| 0 <= k < i ==> (#[trigger] r@[k])@ == block_json(blocks@[k]@),
        decreases blocks.len() - i,
    {
        let mut m: Vec<Member> = Vec::new();
        m.push(member("type", Json::text(blocks[i].block_type.as_str())));
        m.push(member("text", json_or_null(&blocks[i].text)));
        m.push(member("id", json_or_null(&blocks[i].id)));
        m.push(member("name", json_or_null(&blocks[i].name)));
        let input: Json = match &blocks[i].input {
            Some(v) => v.duplicate(),
            None => Json::Null,
        };
        m.push(member("input", input));
        assert(member_views(m@) =~= block_json(blocks@[i as int]@)->Object_0);
        r.push(Json::object(m));
        i = i + 1;
    }
    assert(json_views(r@) =~= blocks_json(block_views(blocks@)));
    r
}

/// The calls that a reply asks for, in order.
pub fn requested_tools(blocks: &Vec<ContentBlock>) -> (r: Vec<ToolUse>)
    ensures
        use_views(r@) == tool_uses(block_views(blocks@)),
{
    let ghost all = block_views(blocks@);
    let mut r: Vec<ToolUse> = Vec::new();
    let mut i: usize = 0;
    proof {
        reveal(Seq::filter);
        assert(tool_uses(all.take(0)) =~= Seq::empty());
        assert(use_views(r@) =~= Seq::empty());
    }
    while i < blocks.len()
        invariant
            all == block_views(blocks@),
            i <= blocks.len(),
            use_views(r@) == tool_uses(all.take(i as int)),
        decreases blocks.len() - i,
    {
        let ghost was = use_views(r@);
        if same_text(blocks[i].block_type.as_str(), "tool_use") {
            let input: Json = match &blocks[i].input {
                Some(v) => v.duplicate(),
                None => {
                    let none: Vec<Member> = Vec::new();
                    assert(member_views(none@) =~= Seq::empty());
                    Json::object(none)
                },
            };
            r.push(
                ToolUse {
                    id: string_or_empty(&blocks[i].id),
                    name: string_or_empty(&blocks[i].name),
                    input,
                },
            );
            assert(use_views(r@) =~= was.push(requested(blocks@[i as int]@)));
        }
        proof {
            assert(all.take(i + 1) =~= all.take(i as int).push(blocks@[i as int]@));
            lemma_tool_uses_push(all.take(i as int), blocks@[i as int]@);
        }
        i = i + 1;
    }
    assert(all.take(blocks.len() as int) =~= all);
    r
}

// One API call.

pub struct ClaudeClient {
    api_key: String,
    model: String,
    max_tokens: u32,
    circuit: CircuitBreaker,
}

/// The client as contracts speak of it.
pub struct ClientView {
    pub api_key: Seq<char>,
    pub model: Seq<char>,
    pub max_tokens: u32,
    pub circuit: Breaker,
}

impl View for ClaudeClient {
    type V = ClientView;

    closed spec fn view(&self) -> ClientView {
        ClientView {
            api_key: self.api_key@,
            model: self.model@,
            max_tokens: self.max_tokens,
            circuit: self.circuit@,
        }
    }
}

/// A request as contracts speak of it.
pub struct AskView {
    pub model: Seq<char>,
    pub max_tokens: u32,
    pub system: Seq<char>,
    pub tools: Seq<ToolView>,
    pub messages: Seq<MessageView>,
}

impl View for ClaudeRequest {
    type V = AskView;

    open spec fn view(&self) -> AskView {
        AskView {
            model: self.model@,
            max_tokens: self.max_tokens,
            system: self.system@,
            tools: tool_views(self.tools@),
            messages: message_views(self.messages@),
        }
    }
}

pub open spec fn tool_json(t: ToolView) -> JsonView {
    JsonView::Object(
        seq![
            ("name"@, JsonView::Text(t.name)),
            ("description"@, JsonView::Text(t.description)),
            ("input_schema"@, t.input_schema),
        ],
    )
}

pub open spec fn message_json(m: MessageView) -> JsonView {
    JsonView::Object(seq![("role"@, JsonView::Text(m.role)), ("content"@, m.content)])
}

/// A request in JSON.
pub open spec fn ask_json(a: AskView) -> JsonView {
    JsonView::Object(
        seq![
            ("model"@, JsonView::Text(a.model)),
            ("max_tokens"@, JsonView::Number(decimal_of(a.max_tokens as nat))),
            ("system"@, JsonView::Text(a.system)),
            ("tools"@, JsonView::Array(a.tools.map_values(|t: ToolView| tool_json(t)))),
            ("messages"@, JsonView::Array(a.messages.map_values(|m: MessageView| message_json(m)))),
        ],
    )
}

fn tools_value(tools: &Vec<ClaudeTool>) -> (r: Json)
    ensures
        r@ == JsonView::Array(tool_views(tools@).map_values(|t: ToolView| tool_json(t))),
{
    let mut r: Vec<Json> = Vec::new();
    let mut i: usize = 0;
    while i < tools.len()
        invariant
            i <= tools.len(),
            r@.len() == i,
            forall|k: int| 0 <= k < i ==> (#[trigger] r@[k])@ == tool_json(tools@[k]@),
        decreases tools.len() - i,
    {
        let mut m: Vec<Member> = Vec::new();
        m.push(member("name", Json::text(tools[i].name.as_str())));
        m.push(member("description", Json::text(tools[i].description.as_str())));
        m.push(member("input_schema", tools[i].input_schema.duplicate()));
        assert(member_views(m@) =~= tool_json(tools@[i as int]@)->Object_0);
        r.push(Json::object(m));
        i = i + 1;
    }
    assert(json_views(r@) =~= tool_views(tools@).map_values(|t: ToolView| tool_json(t)));
    Json::array(r)
}

/// A history in JSON.
pub fn messages_value(messages: &Vec<ClaudeMessage>) -> (r: Json)
    ensures
        r@ == JsonView::Array(
            message_views(messages@).map_values(|m: MessageView| message_json(m)),
        ),
{
    let mut r: Vec<Json> = Vec::new();
    let mut i: usize = 0;
    while i < messages.len()
        invariant
            i <= messages.len(),
            r@.len() == i,
            forall|k: int| 0 <= k < i ==> (#[trigger] r@[k])@ == message_json(messages@[k]@),
        decreases messages.len() - i,
    {
        let mut m: Vec<Member> = Vec::new();
        m.push(member("role", Json::text(messages[i].role.as_str())));
        m.push(member("content", messages[i].content.duplicate()));
        assert(member_views(m@) =~= message_json(messages@[i as int]@)->Object_0);
        r.push(Json::object(m));
        i = i + 1;
    }
    assert(json_views(r@) =~= message_views(messages@).map_values(
        |m: MessageView| message_json(m),
    ));
    Json::array(r)
}

/// What the reply to an API call says.
pub open spec fn api_result(reply: Result<HttpReply<ClaudeResponse>, String>) -> Result<
    ResponseView,
    ErrorView,
> {
    match reply {
        Err(e) => Err(ErrorView::ClaudeNetwork(e@)),
        Ok(reply) => if is_success(reply.status) {
            match reply.parsed {
                Ok(r) => Ok(r@),
                Err(e) => Err(ErrorView::ClaudeParse(e@)),
            }
        } else {
            Err(ErrorView::ClaudeApi { status: reply.status, body: reply.text@ })
        },
    }
}

/// What a check of the key found: nothing, or what is wrong, in words.
pub open spec fn key_verdict(reply: Result<HttpReply<Json>, String>) -> Result<(), Seq<char>> {
    match reply {
        Err(e) => Err("could not reach Anthropic: "@ + e@),
        Ok(reply) => if is_success(reply.status) {
            Ok(())
        } else {
            Err(
                "Anthropic answered "@ + decimal_of(reply.status as nat) + ": "@ + (match reply.parsed {
                    Ok(body) => match body@.at("error"@).at("message"@).as_text() {
                        Some(m) => m,
                        None => "no detail"@,
                    },
                    Err(_) => "no detail"@,
                }),
            )
        },
    }
}

/// Powers of two.
pub open spec fn doubled(n: nat) -> nat
    decreases n,
{
    if n == 0 {
        1
    } else {
        2 * doubled((n - 1) as nat)
    }
}

/// The wait, in milliseconds, before the retry that follows on `made` others.
pub open spec fn backoff(made: nat) -> nat {
    (BACKOFF_BASE_MS * doubled(made)) as nat
}

/// An attempt that came back with `outcome`, after `made` retries, is the last: it
/// succeeded, trying again would not help, or there is no retry left.
pub open spec fn is_last<T>(made: nat, outcome: Result<T, ErrorView>) -> bool {
    match outcome {
        Ok(_) => true,
        Err(e) => !e.retryable() || made == MAX_RETRIES,
    }
}

/// The retries made of one call.
pub struct Attempts {
    made: u32,
}

impl Attempts {
    #[verifier::type_invariant]
    spec fn inv(&self) -> bool {
        self.made <= MAX_RETRIES
    }

    /// How many retries were made.
    pub closed spec fn made(&self) -> nat {
        self.made as nat
    }
}

/// What to do after an attempt.
pub enum RetryStep {
    /// The call is over.
    Done(BridgeResult<ClaudeResponse>),
    /// Wait, and try again.
    Wait { backoff_ms: u64, attempts: Attempts },
}

/// The view of what came back.
pub open spec fn response_view(r: BridgeResult<ClaudeResponse>) -> Result<ResponseView, ErrorView> {
    match r {
        Ok(resp) => Ok(resp@),
        Err(e) => Err(e@),
    }
}

impl ClaudeClient {
    pub fn new(api_key: String, model: String, max_tokens: u32, circuit: CircuitBreaker) -> (r:
        ClaudeClient)
        ensures
            r@ == (ClientView {
                api_key: api_key@,
                model: model@,
                max_tokens,
                circuit: circuit@,
            }),
    {
        ClaudeClient { api_key, model, max_tokens, circuit }
    }

    pub fn model(&self) -> (r: &str)
        ensures
            r@ == self@.model,
    {
        self.model.as_str()
    }

    /// The state of the circuit at this moment.
    pub fn circuit_state(&mut self) -> (r: CircuitState)
        ensures
            exists|now: u64|
                final(self)@ == (ClientView {
                    circuit: #[trigger] old(self)@.circuit.at(now),
                    ..old(self)@
                }),
            r == final(self)@.circuit.state,
    {
        self.circuit.state()
    }

    /// The request that asks whether the key is accepted, without spending a token.
    /// It stands outside the circuit breaker: this is how one finds out why the
    /// circuit opened.
    pub fn check_key(&self) -> (r: HttpRequest)
        ensures
            r@ == RequestView::bare(Method::Get, CLAUDE_MODELS_URL@).with_header(
                "x-api-key"@,
                self@.api_key,
            ).with_header("anthropic-version"@, "2023-06-01"@).with_timeout(CHECK_TIMEOUT_S),
    {
        HttpRequest::bare(Method::Get, CLAUDE_MODELS_URL.to_owned()).with_header(
            "x-api-key",
            self.api_key.as_str(),
        ).with_header("anthropic-version", "2023-06-01").with_timeout(CHECK_TIMEOUT_S)
    }

    /// What a check of the key found.
    pub fn key_checked(reply: Result<HttpReply<Json>, String>) -> (r: Result<(), String>)
        ensures
            match r {
                Ok(()) => key_verdict(reply) is Ok,
                Err(m) => key_verdict(reply) == Err::<(), Seq<char>>(m@),
            },
    {
        match reply {
            Err(e) => Err(concat2("could not reach Anthropic: ", e.as_str())),
            Ok(reply) => {
                if success(reply.status) {
                    return Ok(());
                }
                let mut m: String = concat2(
                    "Anthropic answered ",
                    decimal(reply.status as u64).as_str(),
                );
                m.append(": ");
                match reply.parsed {
                    Ok(body) => {
                        let detail: Option<&str> = match body.get("error") {
                            Some(e) => e.text_at("message"),
                            None => None,
                        };
                        match detail {
                            Some(d) => {
                                m.append(d);
                            },
                            None => {
                                m.append("no detail");
                            },
                        }
                    },
                    Err(_) => {
                        m.append("no detail");
                    },
                }
                Err(m)
            },
        }
    }

    /// The request that asks the model.
    pub fn call_api(&self, req: &ClaudeRequest) -> (r: HttpRequest)
        ensures
            r@ == RequestView::bare(Method::Post, CLAUDE_API_URL@).with_header(
                "x-api-key"@,
                self@.api_key,
            ).with_header("anthropic-version"@, "2023-06-01"@).with_header(
                "content-type"@,
                "application/json"@,
            ).with_body(ask_json(req@)),
    {
        let mut m: Vec<Member> = Vec::new();
        m.push(member("model", Json::text(req.model.as_str())));
        m.push(member("max_tokens", Json::Number(decimal(req.max_tokens as u64))));
        m.push(member("system", Json::text(req.system.as_str())));
        m.push(member("tools", tools_value(&req.tools)));
        m.push(member("messages", messages_value(&req.messages)));
        assert(member_views(m@) =~= ask_json(req@)->Object_0);
        HttpRequest::bare(Method::Post, CLAUDE_API_URL.to_owned()).with_header(
            "x-api-key",
            self.api_key.as_str(),
        ).with_header("anthropic-version", "2023-06-01").with_header(
            "content-type",
            "application/json",
        ).with_body(Json::object(m))
    }

    /// What the reply to an API call says.
    pub fn api_called(reply: Result<HttpReply<ClaudeResponse>, String>) -> (r: BridgeResult<
        ClaudeResponse,
    >)
        ensures
            response_view(r) == api_result(reply),
    {
        match reply {
            Err(e) => Err(BridgeError::ClaudeNetwork(e)),
            Ok(reply) => {
                if !success(reply.status) {
                    return Err(BridgeError::ClaudeApi { status: reply.status, body: reply.text });
                }
                match reply.parsed {
                    Ok(r) => Ok(r),
                    Err(e) => Err(BridgeError::ClaudeParse(e)),
                }
            },
        }
    }

    /// Begins an API call with retries, where the circuit breaker lets it pass.
    pub fn call_api_with_retry(&mut self) -> (r: BridgeResult<Attempts>)
        ensures
            exists|now: u64|
                {
                    let circuit = #[trigger] old(self)@.circuit.at(now);
                    &&& r is Ok <==> circuit.admits()
                    &&& final(self)@ == (ClientView { circuit: circuit.asked(), ..old(self)@ })
                },
            r matches Ok(attempts) ==> attempts.made() == 0,
            r matches Err(e) ==> e@ == ErrorView::CircuitOpen,
    {
        if !self.circuit.allow_request() {
            return Err(BridgeError::CircuitOpen);
        }
        Ok(Attempts { made: 0 })
    }

    /// What follows from the outcome of an attempt. The last one is recorded in the
    /// circuit, as a success or as one failure; the ones before it are not.
    pub fn attempted(&mut self, attempts: Attempts, outcome: BridgeResult<ClaudeResponse>) -> (r:
        RetryStep)
        ensures
            match r {
                RetryStep::Done(result) => {
                    &&& is_last(attempts.made(), response_view(outcome))
                    &&& result == outcome
                    &&& outcome is Ok ==> final(self)@ == (ClientView {
                        circuit: old(self)@.circuit.succeeded(),
                        ..old(self)@
                    })
                    &&& outcome is Err ==> exists|now: u64|
                        final(self)@ == (ClientView {
                            circuit: #[trigger] old(self)@.circuit.failed(now),
                            ..old(self)@
                        })
                },
                RetryStep::Wait { backoff_ms, attempts: next } => {
                    &&& !is_last(attempts.made(), response_view(outcome))
                    &&& backoff_ms == backoff(attempts.made())
                    &&& next.made() == attempts.made() + 1
                    &&& final(self)@ == old(self)@
                },
            },
    {
        proof {
            use_type_invariant(&attempts);
        }
        match outcome {
            Ok(resp) => {
                self.circuit.record_success();
                RetryStep::Done(Ok(resp))
            },
            Err(e) => {
                if !e.retryable() || attempts.made == MAX_RETRIES {
                    self.circuit.record_failure();
                    return RetryStep::Done(Err(e));
                }
                proof {
                    reveal_with_fuel(doubled, 3);
                }
                let factor: u64 = match attempts.made {
                    0 => 1,
                    1 => 2,
                    _ => 4,
                };
                RetryStep::Wait {
                    backoff_ms: BACKOFF_BASE_MS * factor,
                    attempts: Attempts { made: attempts.made + 1 },
                }
            },
        }
    }
}

// One conversational turn.

/// A conversation that waits for the model.
pub struct Conversation {
    api_key: String,
    system: String,
    tools: Vec<ClaudeTool>,
    messages: Vec<ClaudeMessage>,
    round: usize,
}

/// A conversation as contracts speak of it.
pub struct ConvoView {
    /// The linked person's own key: every tool call carries it.
    pub api_key: Seq<char>,
    pub system: Seq<char>,
    pub tools: Seq<ToolView>,
    pub messages: Seq<MessageView>,
    /// The rounds of tool calls behind it.
    pub round: nat,
}

impl View for Conversation {
    type V = ConvoView;

    closed spec fn view(&self) -> ConvoView {
        ConvoView {
            api_key: self.api_key@,
            system: self.system@,
            tools: tool_views(self.tools@),
            messages: message_views(self.messages@),
            round: self.round as nat,
        }
    }
}

pub open spec fn from_user(content: JsonView) -> MessageView {
    MessageView { role: "user"@, content }
}

pub open spec fn from_assistant(content: JsonView) -> MessageView {
    MessageView { role: "assistant"@, content }
}

/// The model ended its turn.
pub open spec fn ends_turn(r: ResponseView) -> bool {
    r.stop_reason == "end_turn"@
}

/// The model wants tools called.
pub open spec fn wants_tools(r: ResponseView) -> bool {
    r.stop_reason == "tool_use"@
}

/// What the history keeps of a reply: all that was said, or only its text where the
/// model stopped for a reason of its own.
pub open spec fn kept(r: ResponseView) -> MessageView {
    if ends_turn(r) || wants_tools(r) {
        from_assistant(JsonView::Array(blocks_json(r.content)))
    } else {
        from_assistant(JsonView::Text(reply_text(r.content)))
    }
}

impl ConvoView {
    /// A turn that begins with `user_message`.
    pub open spec fn started(
        api_key: Seq<char>,
        system: Seq<char>,
        history: Seq<MessageView>,
        user_message: Seq<char>,
        tools: Seq<ToolView>,
    ) -> ConvoView {
        ConvoView {
            api_key,
            system,
            tools,
            messages: history.push(from_user(JsonView::Text(user_message))),
            round: 0,
        }
    }

    /// The conversation with one more message.
    pub open spec fn told(self, m: MessageView) -> ConvoView {
        ConvoView { messages: self.messages.push(m), ..self }
    }

    /// The conversation after a round of tool calls: `results` answer what the model
    /// asked for in `r`.
    pub open spec fn after_round(self, r: ResponseView, results: Seq<JsonView>) -> ConvoView {
        let c = self.told(kept(r)).told(from_user(JsonView::Array(results)));
        ConvoView { round: self.round + 1, ..c }
    }
}

/// The answers to `calls`, of which `outcomes` came.
pub open spec fn answers(calls: Seq<ToolUseView>, outcomes: Seq<OutcomeView>) -> Seq<JsonView> {
    Seq::new(outcomes.len(), |i: int| tool_result(calls[i].id, outcomes[i]))
}

/// A conversation after some rounds: in each the model asked for tools, and the
/// outcomes came.
pub open spec fn after_rounds(
    c: ConvoView,
    rounds: Seq<(ResponseView, Seq<OutcomeView>)>,
) -> ConvoView
    decreases rounds.len(),
{
    if rounds.len() == 0 {
        c
    } else {
        let (r, outcomes) = rounds.last();
        after_rounds(c, rounds.drop_last()).after_round(
            r,
            answers(tool_uses(r.content), outcomes),
        )
    }
}

/// A round of tool calls: some of the calls that the model asked for have been
/// answered.
pub struct ToolRound {
    convo: Conversation,
    calls: Vec<ToolUse>,
    results: Vec<Json>,
}

pub struct RoundView {
    /// The conversation, up to and with the reply that asked for the calls.
    pub convo: ConvoView,
    pub calls: Seq<ToolUseView>,
    /// The answers so far, to the first of the calls.
    pub results: Seq<JsonView>,
}

impl View for ToolRound {
    type V = RoundView;

    closed spec fn view(&self) -> RoundView {
        RoundView {
            convo: self.convo@,
            calls: use_views(self.calls@),
            results: json_views(self.results@),
        }
    }
}

/// What follows from a reply of the model.
pub enum ModelStep {
    /// The turn is over, with the text to send back and the new history.
    Done(BridgeResult<(String, Vec<ClaudeMessage>)>),
    /// Tools are to be called.
    Tools(ToolRound),
}

impl ClaudeClient {
    /// Begins a conversational turn. Every tool call of it will carry `api_key`, the
    /// linked person's own key.
    pub fn run(
        &self,
        system_prompt: &str,
        history: Vec<ClaudeMessage>,
        user_message: &str,
        tools: &Vec<Tool>,
        api_key: &str,
    ) -> (r: Conversation)
        ensures
            r@ == ConvoView::started(
                api_key@,
                system_prompt@,
                message_views(history@),
                user_message@,
                tools@.map_values(|t: Tool| t@),
            ),
    {
        let mut claude_tools: Vec<ClaudeTool> = Vec::new();
        let mut i: usize = 0;
        while i < tools.len()
            invariant
                i <= tools.len(),
                claude_tools@.len() == i,
                forall|k: int| 0 <= k < i ==> (#[trigger] claude_tools@[k])@ == tools@[k]@,
            decreases tools.len() - i,
        {
            claude_tools.push(to_claude_tool(&tools[i]));
            i = i + 1;
        }
        let mut messages = history;
        messages.push(ClaudeMessage::new("user", Json::text(user_message)));
        proof {
            assert(tool_views(claude_tools@) =~= tools@.map_values(|t: Tool| t@));
            assert(message_views(messages@) =~= message_views(history@).push(
                from_user(JsonView::Text(user_message@)),
            ));
        }
        Conversation {
            api_key: api_key.to_owned(),
            system: system_prompt.to_owned(),
            tools: claude_tools,
            messages,
            round: 0,
        }
    }

    /// What is to be asked of the model next.
    pub fn request(&self, c: &Conversation) -> (r: ClaudeRequest)
        ensures
            r@ == (AskView {
                model: self@.model,
                max_tokens: self@.max_tokens,
                system: c@.system,
                tools: c@.tools,
                messages: c@.messages,
            }),
    {
        ClaudeRequest {
            model: self.model.clone(),
            max_tokens: self.max_tokens,
            system: c.system.clone(),
            tools: duplicate_tools(&c.tools),
            messages: duplicate_messages(&c.messages),
        }
    }
}

impl Conversation {
    #[verifier::type_invariant]
    spec fn inv(&self) -> bool {
        self.round < MAX_TOOL_ROUNDS
    }

    /// What follows from what the model answered.
    pub fn answered(self, reply: BridgeResult<ClaudeResponse>) -> (r: ModelStep)
        ensures
            match reply {
                Err(e) => r == ModelStep::Done(Err(e)),
                Ok(resp) => if wants_tools(resp@) {
                    r matches ModelStep::Tools(round) && round@ == (RoundView {
                        convo: self@.told(kept(resp@)),
                        calls: tool_uses(resp@.content),
                        results: Seq::empty(),
                    })
                } else {
                    r matches ModelStep::Done(Ok(end)) && end.0@ == reply_text(resp@.content)
                        && message_views(end.1@) == self@.told(kept(resp@)).messages
                },
            },
            self@.round < MAX_TOOL_ROUNDS,
    {
        proof {
            use_type_invariant(&self);
        }
        match reply {
            Err(e) => ModelStep::Done(Err(e)),
            Ok(resp) => {
                let Conversation { api_key, system, tools, mut messages, round } = self;
                let ghost before = message_views(messages@);
                if same_text(resp.stop_reason.as_str(), "tool_use") {
                    let said: Vec<Json> = content_blocks_to_value(&resp.content);
                    messages.push(ClaudeMessage::new("assistant", Json::array(said)));
                    assert(message_views(messages@) =~= before.push(kept(resp@)));
                    let convo = Conversation { api_key, system, tools, messages, round };
                    let results: Vec<Json> = Vec::new();
                    assert(json_views(results@) =~= Seq::empty());
                    return ModelStep::Tools(
                        ToolRound { convo, calls: requested_tools(&resp.content), results },
                    );
                }
                let text: String = extract_text(&resp.content);
                let content: Json = if same_text(resp.stop_reason.as_str(), "end_turn") {
                    Json::array(content_blocks_to_value(&resp.content))
                } else {
                    Json::text(text.as_str())
                };
                messages.push(ClaudeMessage::new("assistant", content));
                assert(message_views(messages@) =~= before.push(kept(resp@)));
                ModelStep::Done(Ok((text, messages)))
            },
        }
    }
}

impl ToolRound {
    /// The next call to be made, while one is left.
    pub fn next_call(&self) -> (r: Option<&ToolUse>)
        ensures
            match r {
                Some(u) => self@.results.len() < self@.calls.len() && u@
                    == self@.calls[self@.results.len() as int],
                None => self@.results.len() >= self@.calls.len(),
            },
    {
        if self.results.len() < self.calls.len() {
            Some(&self.calls[self.results.len()])
        } else {
            None
        }
    }

    /// The request that makes the next call, while one is left. It carries the
    /// person's own key.
    pub fn next_request(&self, mcp: &mut McpClient) -> (r: Option<HttpRequest>)
        ensures
            match r {
                Some(req) => {
                    let u = self@.calls[self@.results.len() as int];
                    &&& self@.results.len() < self@.calls.len()
                    &&& req@ == old(mcp)@.request(
                        self@.convo.api_key,
                        "tools/call"@,
                        call_params(u.name, u.input),
                    )
                    &&& final(mcp)@ == old(mcp)@.advanced()
                },
                None => self@.results.len() >= self@.calls.len() && final(mcp)@ == old(mcp)@,
            },
    {
        match self.next_call() {
            Some(u) => Some(
                mcp.call_tool(self.convo.api_key.as_str(), u.name.as_str(), &u.input),
            ),
            None => None,
        }
    }

    /// Takes the outcome of the next call.
    pub fn take_outcome(&mut self, outcome: ToolOutcome)
        requires
            old(self)@.results.len() < old(self)@.calls.len(),
        ensures
            final(self)@ == (RoundView {
                results: old(self)@.results.push(
                    tool_result(old(self)@.calls[old(self)@.results.len() as int].id, outcome@),
                ),
                ..old(self)@
            }),
    {
        let n: usize = self.results.len();
        let mut m: Vec<Member> = Vec::new();
        m.push(member("type", Json::text("tool_result")));
        m.push(member("tool_use_id", Json::text(self.calls[n].id.as_str())));
        m.push(member("content", Json::text(outcome.text.as_str())));
        m.push(member("is_error", Json::Bool(outcome.is_error)));
        let ghost id = self.calls@[n as int].id@;
        assert(member_views(m@) =~= tool_result(id, outcome@)->Object_0);
        let ghost before = json_views(self.results@);
        self.results.push(Json::object(m));
        assert(json_views(self.results@) =~= before.push(tool_result(id, outcome@)));
    }

    /// Ends the round once all its calls are answered. The model is asked again,
    /// unless this was the last round of the turn.
    pub fn finish(self) -> (r: BridgeResult<Conversation>)
        requires
            self@.results.len() == self@.calls.len(),
        ensures
            match r {
                Ok(c) => {
                    let told = self@.convo.told(from_user(JsonView::Array(self@.results)));
                    &&& self@.convo.round + 1 < MAX_TOOL_ROUNDS
                    &&& c@ == (ConvoView { round: self@.convo.round + 1, ..told })
                },
                Err(e) => self@.convo.round + 1 == MAX_TOOL_ROUNDS && e@
                    == (ErrorView::ToolLoopExhausted { max_rounds: MAX_TOOL_ROUNDS }),
            },
    {
        let ToolRound { convo, calls, results } = self;
        proof {
            use_type_invariant(&convo);
        }
        let Conversation { api_key, system, tools, mut messages, round } = convo;
        if round + 1 == MAX_TOOL_ROUNDS {
            return Err(BridgeError::ToolLoopExhausted { max_rounds: MAX_TOOL_ROUNDS });
        }
        let ghost before = message_views(messages@);
        messages.push(ClaudeMessage::new("user", Json::array(results)));
        assert(message_views(messages@) =~= before.push(
            from_user(JsonView::Array(json_views(results@))),
        ));
        Ok(Conversation { api_key, system, tools, messages, round: round + 1 })
    }
}

// Laws.

/// A call ends with its third retry at the latest, and only what may pass by itself is
/// tried again: a failure of the network, a rate limit, an error of the server. As long
/// as a retry is left, it is.
pub proof fn retries_end(made: nat, outcome: Result<ResponseView, ErrorView>)
    requires
        made <= MAX_RETRIES,
    ensures
        made == 3 ==> is_last(made, outcome),
        made < 3 ==> (!is_last(made, outcome) <==> match outcome {
            Err(ErrorView::ClaudeNetwork(_)) => true,
            Err(ErrorView::ClaudeApi { status, .. }) => status == 429 || 500 <= status <= 599,
            _ => false,
        }),
{
}

/// The waits before the three retries are of one, two and four seconds, each twice the
/// one before it.
pub proof fn waits_double(made: nat)
    ensures
        backoff(0) == 1000,
        backoff(1) == 2000,
        backoff(2) == 4000,
        backoff(made + 1) == 2 * backoff(made),
{
    reveal_with_fuel(doubled, 3);
}

/// Each answer names the call that it answers, in the order of the calls, and carries
/// what came of it.
pub proof fn every_call_is_answered(
    calls: Seq<ToolUseView>,
    outcomes: Seq<OutcomeView>,
    next: OutcomeView,
    i: int,
)
    requires
        outcomes.len() < calls.len(),
        0 <= i <= outcomes.len(),
    ensures
        answers(calls, outcomes.push(next)) == answers(calls, outcomes).push(
            tool_result(calls[outcomes.len() as int].id, next),
        ),
        ({
            let answer = answers(calls, outcomes.push(next))[i];
            let outcome = outcomes.push(next)[i];
            &&& answer.at("tool_use_id"@) == JsonView::Text(calls[i].id)
            &&& answer.at("content"@) == JsonView::Text(outcome.text)
            &&& answer.at("is_error"@) == JsonView::Bool(outcome.is_error)
        }),
{
    assert(answers(calls, outcomes.push(next)) =~= answers(calls, outcomes).push(
        tool_result(calls[outcomes.len() as int].id, next),
    ));
    let m = tool_result(calls[i].id, outcomes.push(next)[i])->Object_0;
    reveal_strlit("type");
    reveal_strlit("tool_use_id");
    reveal_strlit("content");
    reveal_strlit("is_error");
    assert("type"@.len() != "tool_use_id"@.len());
    assert("type"@.len() != "content"@.len());
    assert("type"@.len() != "is_error"@.len());
    assert("tool_use_id"@.len() != "content"@.len());
    assert("tool_use_id"@.len() != "is_error"@.len());
    assert("content"@.len() != "is_error"@.len());
    reveal_with_fuel(lookup, 5);
}

/// A turn only adds to the history, and every round adds the same two messages: what
/// the model said, then the answers to its calls. The key, the instructions and the
/// tools stay as they were at the start.
pub proof fn a_turn_only_adds(c: ConvoView, rounds: Seq<(ResponseView, Seq<OutcomeView>)>, i: int)
    requires
        0 <= i < rounds.len(),
    ensures
        ({
            let end = after_rounds(c, rounds);
            let n = c.messages.len() as int;
            let (r, outcomes) = rounds[i];
            &&& end.messages.len() == n + 2 * rounds.len()
            &&& end.messages.take(n) == c.messages
            &&& end.messages[n + 2 * i] == kept(r)
            &&& end.messages[n + 2 * i + 1] == from_user(
                JsonView::Array(answers(tool_uses(r.content), outcomes)),
            )
            &&& end.round == c.round + rounds.len()
            &&& end.api_key == c.api_key
            &&& end.system == c.system
            &&& end.tools == c.tools
        }),
    decreases rounds.len(),
{
    let init = rounds.drop_last();
    let before = after_rounds(c, init);
    let n = c.messages.len() as int;
    if init.len() == 0 {
        assert(before == c);
    } else if i < init.len() {
        a_turn_only_adds(c, init, i);
        assert(init[i] == rounds[i]);
    } else {
        a_turn_only_adds(c, init, 0);
    }
    assert(after_rounds(c, rounds).messages.take(n) =~= before.messages.take(n));
    assert(c.messages.take(n) =~= c.messages);
}

/// Of a reply that ends the turn or asks for tools the history keeps every block, in
/// order and with all its fields. Of any other reply it keeps the text.
pub proof fn a_reply_is_kept_whole(r: ResponseView, i: int)
    requires
        0 <= i < r.content.len(),
    ensures
        kept(r).role == "assistant"@,
        r.stop_reason == "tool_use"@ || r.stop_reason == "end_turn"@ ==> {
            let b = r.content[i];
            let said = kept(r).content->Array_0;
            &&& kept(r).content is Array
            &&& said.len() == r.content.len()
            &&& said[i].at("type"@) == JsonView::Text(b.block_type)
            &&& said[i].at("text"@) == (match b.text {
                Some(t) => JsonView::Text(t),
                None => JsonView::Null,
            })
            &&& said[i].at("id"@) == (match b.id {
                Some(t) => JsonView::Text(t),
                None => JsonView::Null,
            })
            &&& said[i].at("name"@) == (match b.name {
                Some(t) => JsonView::Text(t),
                None => JsonView::Null,
            })
            &&& said[i].at("input"@) == (match b.input {
                Some(v) => v,
                None => JsonView::Null,
            })
        },
        r.stop_reason != "tool_use"@ && r.stop_reason != "end_turn"@ ==> kept(r).content
            == JsonView::Text(reply_text(r.content)),
{
    reveal_strlit("type");
    reveal_strlit("text");
    reveal_strlit("id");
    reveal_strlit("name");
    reveal_strlit("input");
    assert("type"@[1] == 'y' && "text"@[1] == 'e' && "name"@[1] == 'a');
    assert("id"@.len() == 2 && "input"@.len() == 5 && "type"@.len() == 4 && "text"@.len() == 4
        && "name"@.len() == 4);
    let m = block_json(r.content[i])->Object_0;
    members_are_found_by_name(m, "type"@, 0);
    members_are_found_by_name(m, "text"@, 1);
    members_are_found_by_name(m, "id"@, 2);
    members_are_found_by_name(m, "name"@, 3);
    members_are_found_by_name(m, "input"@, 4);
}

/// The calls that a reply asks for are its blocks of type `tool_use`, in order: one more
/// such block adds its call at the end, and any other block adds none.
pub proof fn calls_are_read_in_order(blocks: Seq<BlockView>, b: BlockView)
    ensures
        tool_uses(Seq::empty()) == Seq::<ToolUseView>::empty(),
        b.block_type != "tool_use"@ ==> tool_uses(blocks.push(b)) == tool_uses(blocks),
        b.block_type == "tool_use"@ ==> {
            let uses = tool_uses(blocks.push(b));
            &&& uses.len() == tool_uses(blocks).len() + 1
            &&& uses.drop_last() == tool_uses(blocks)
            &&& b.id is Some ==> uses.last().id == b.id->0
            &&& b.name is Some ==> uses.last().name == b.name->0
            &&& b.input is Some ==> uses.last().input == b.input->0
            &&& b.input is None ==> uses.last().input == JsonView::Object(Seq::empty())
        },
{
    lemma_tool_uses_push(blocks, b);
    reveal(Seq::filter);
    assert(tool_uses(Seq::empty()) =~= Seq::empty());
    if b.block_type == "tool_use"@ {
        assert(tool_uses(blocks.push(b)).drop_last() =~= tool_uses(blocks));
    }
}

/// The text of a reply are the texts of its blocks of type `text`, in order, each on a
/// line of its own: one more such block adds its text, and any other block adds nothing.
pub proof fn texts_are_read_in_order(blocks: Seq<BlockView>, b: BlockView)
    ensures
        reply_text(Seq::empty()) == Seq::<char>::empty(),
        b.block_type != "text"@ || b.text is None ==> reply_text(blocks.push(b)) == reply_text(
            blocks,
        ),
        b.block_type == "text"@ && b.text is Some ==> reply_text(blocks.push(b)) == (if (exists|
            i: int,
        |
            0 <= i < blocks.len() && #[trigger] blocks[i].block_type == "text"@
                && blocks[i].text is Some) {
            reply_text(blocks) + seq!['\n'] + b.text->0
        } else {
            b.text->0
        }),
{
    lemma_said_push(blocks, b);
    reveal(Seq::filter);
    reveal_strlit("\n");
    assert("\n"@ =~= seq!['\n']);
    assert(said(Seq::empty()) =~= Seq::empty());
    lemma_said_some(blocks);
    if text_block(b) {
        joining_separates_parts(said(blocks), b.text->0, "\n"@);
        if said(blocks).len() == 0 {
            assert(said(blocks).push(b.text->0) =~= seq![b.text->0]);
        }
    }
}

proof fn lemma_said_some(blocks: Seq<BlockView>)
    ensures
        said(blocks).len() > 0 <==> exists|i: int|
            0 <= i < blocks.len() && #[trigger] blocks[i].block_type == "text"@
                && blocks[i].text is Some,
    decreases blocks.len(),
{
    reveal(Seq::filter);
    if blocks.len() > 0 {
        let init = blocks.drop_last();
        let b = blocks.last();
        lemma_said_some(init);
        lemma_said_push(init, b);
        assert(init.push(b) =~= blocks);
        if text_block(b) {
            assert(blocks[blocks.len() - 1].block_type == "text"@);
        }
        if said(init).len() > 0 {
            let i = choose|i: int|
                0 <= i < init.len() && #[trigger] init[i].block_type == "text"@
                    && init[i].text is Some;
            assert(blocks[i].block_type == "text"@ && blocks[i].text is Some);
        }
        if exists|i: int|
            0 <= i < blocks.len() && #[trigger] blocks[i].block_type == "text"@
                && blocks[i].text is Some {
            let i = choose|i: int|
                0 <= i < blocks.len() && #[trigger] blocks[i].block_type == "text"@
                    && blocks[i].text is Some;
            if i < init.len() {
                assert(init[i].block_type == "text"@ && init[i].text is Some);
            }
        }
    }
}

proof fn lemma_use_has_a_block(blocks: Seq<BlockView>, k: int)
    requires
        0 <= k < tool_uses(blocks).len(),
    ensures
        exists|i: int|
            0 <= i < blocks.len() && #[trigger] blocks[i].block_type == "tool_use"@ && tool_uses(
                blocks,
            )[k] == requested(blocks[i]),
    decreases blocks.len(),
{
    reveal(Seq::filter);
    if blocks.len() > 0 {
        let init = blocks.drop_last();
        let b = blocks.last();
        lemma_tool_uses_push(init, b);
        assert(init.push(b) =~= blocks);
        if k < tool_uses(init).len() {
            lemma_use_has_a_block(init, k);
            let i = choose|i: int|
                0 <= i < init.len() && #[trigger] init[i].block_type == "tool_use"@ && tool_uses(
                    init,
                )[k] == requested(init[i]);
            assert(blocks[i].block_type == "tool_use"@ && tool_uses(blocks)[k] == requested(
                blocks[i],
            ));
        } else {
            assert(blocks[blocks.len() - 1].block_type == "tool_use"@);
        }
    }
}

/// Every result that the model is told of answers a call that stands in the message
/// before it: the message holds a `tool_use` block with the id that the result names.
pub proof fn every_result_answers_a_call_before_it(
    c: ConvoView,
    r: ResponseView,
    outcomes: Seq<OutcomeView>,
    k: int,
)
    requires
        r.stop_reason == "tool_use"@,
        forall|i: int|
            0 <= i < r.content.len() && #[trigger] r.content[i].block_type == "tool_use"@
                ==> r.content[i].id is Some,
        0 <= k < outcomes.len() <= tool_uses(r.content).len(),
    ensures
        ({
            let end = c.after_round(r, answers(tool_uses(r.content), outcomes));
            let n = c.messages.len() as int;
            let asked = end.messages[n].content->Array_0;
            let told = end.messages[n + 1].content->Array_0;
            &&& end.messages.len() == n + 2
            &&& end.messages[n].role == "assistant"@
            &&& end.messages[n].content is Array
            &&& end.messages[n + 1].role == "user"@
            &&& end.messages[n + 1].content is Array
            &&& told.len() == outcomes.len()
            &&& told[k].at("type"@) == JsonView::Text("tool_result"@)
            &&& told[k].at("content"@) == JsonView::Text(outcomes[k].text)
            &&& told[k].at("is_error"@) == JsonView::Bool(outcomes[k].is_error)
            &&& exists|i: int|
                {
                    &&& 0 <= i < asked.len()
                    &&& (#[trigger] asked[i]).at("type"@) == JsonView::Text("tool_use"@)
                    &&& asked[i].at("id"@) == told[k].at("tool_use_id"@)
                }
        }),
{
    let calls = tool_uses(r.content);
    lemma_use_has_a_block(r.content, k);
    let i = choose|i: int|
        0 <= i < r.content.len() && #[trigger] r.content[i].block_type == "tool_use"@ && calls[k]
            == requested(r.content[i]);
    a_reply_is_kept_whole(r, i);
    let end = c.after_round(r, answers(calls, outcomes));
    let asked = end.messages[c.messages.len() as int].content->Array_0;
    reveal_strlit("type");
    reveal_strlit("tool_use_id");
    reveal_strlit("content");
    reveal_strlit("is_error");
    assert("type"@.len() == 4 && "tool_use_id"@.len() == 11 && "content"@.len() == 7
        && "is_error"@.len() == 8);
    let m = tool_result(calls[k].id, outcomes[k])->Object_0;
    members_are_found_by_name(m, "type"@, 0);
    members_are_found_by_name(m, "tool_use_id"@, 1);
    members_are_found_by_name(m, "content"@, 2);
    members_are_found_by_name(m, "is_error"@, 3);
    assert(asked[i].at("type"@) == JsonView::Text("tool_use"@));
}

/// A turn begins with the whole history and the person's message behind it.
pub proof fn a_turn_begins_with_the_message(
    api_key: Seq<char>,
    system: Seq<char>,
    history: Seq<MessageView>,
    user_message: Seq<char>,
    tools: Seq<ToolView>,
)
    ensures
        ({
            let c = ConvoView::started(api_key, system, history, user_message, tools);
            &&& c.messages.len() == history.len() + 1
            &&& c.messages.drop_last() == history
            &&& c.messages.last().role == "user"@
            &&& c.messages.last().content == JsonView::Text(user_message)
            &&& c.api_key == api_key
            &&& c.system == system
            &&& c.tools == tools
            &&& c.round == 0
        }),
{
    assert(ConvoView::started(
        api_key,
        system,
        history,
        user_message,
        tools,
    ).messages.drop_last() =~= history);
}

/// The model is asked with everything: its name, the limit, the instructions, every tool
/// and every message, in order.
pub proof fn a_request_holds_everything(a: AskView, i: int)
    ensures
        ({
            let j = ask_json(a);
            let ms = j.at("messages"@)->Array_0;
            let ts = j.at("tools"@)->Array_0;
            &&& j.at("model"@) == JsonView::Text(a.model)
            &&& j.at("max_tokens"@) == JsonView::Number(decimal_of(a.max_tokens as nat))
            &&& j.at("system"@) == JsonView::Text(a.system)
            &&& j.at("messages"@) is Array
            &&& ms.len() == a.messages.len()
            &&& 0 <= i < ms.len() ==> ms[i].at("role"@) == JsonView::Text(a.messages[i].role)
                && ms[i].at("content"@) == a.messages[i].content
            &&& j.at("tools"@) is Array
            &&& ts.len() == a.tools.len()
            &&& 0 <= i < ts.len() ==> ts[i].at("name"@) == JsonView::Text(a.tools[i].name)
                && ts[i].at("description"@) == JsonView::Text(a.tools[i].description)
                && ts[i].at("input_schema"@) == a.tools[i].input_schema
        }),
{
    reveal_strlit("model");
    reveal_strlit("max_tokens");
    reveal_strlit("system");
    reveal_strlit("tools");
    reveal_strlit("messages");
    assert("model"@.len() == 5 && "max_tokens"@.len() == 10 && "system"@.len() == 6
        && "tools"@.len() == 5 && "messages"@.len() == 8);
    assert("model"@[0] != "tools"@[0]);
    let m = ask_json(a)->Object_0;
    members_are_found_by_name(m, "model"@, 0);
    members_are_found_by_name(m, "max_tokens"@, 1);
    members_are_found_by_name(m, "system"@, 2);
    members_are_found_by_name(m, "tools"@, 3);
    members_are_found_by_name(m, "messages"@, 4);
    reveal_strlit("role");
    reveal_strlit("content");
    reveal_strlit("name");
    reveal_strlit("description");
    reveal_strlit("input_schema");
    assert("role"@.len() == 4 && "content"@.len() == 7);
    assert("name"@.len() == 4 && "description"@.len() == 11 && "input_schema"@.len() == 12);
    if 0 <= i < a.messages.len() {
        let mm = message_json(a.messages[i])->Object_0;
        members_are_found_by_name(mm, "role"@, 0);
        members_are_found_by_name(mm, "content"@, 1);
    }
    if 0 <= i < a.tools.len() {
        let tm = tool_json(a.tools[i])->Object_0;
        members_are_found_by_name(tm, "name"@, 0);
        members_are_found_by_name(tm, "description"@, 1);
        members_are_found_by_name(tm, "input_schema"@, 2);
    }
}

/// An API call succeeded exactly if the answer is one of the two hundreds and could be
/// read. Any other status is told with the text of the answer.
pub proof fn only_a_read_two_hundred_is_a_reply(reply: HttpReply<ClaudeResponse>)
    ensures
        api_result(Ok::<HttpReply<ClaudeResponse>, String>(reply)) is Ok <==> reply.status / 100
            == 2 && reply.parsed is Ok,
        reply.status / 100 == 2 && reply.parsed is Ok ==> api_result(
            Ok::<HttpReply<ClaudeResponse>, String>(reply),
        ) == Ok::<ResponseView, ErrorView>(reply.parsed->Ok_0@),
        reply.status / 100 != 2 ==> api_result(Ok::<HttpReply<ClaudeResponse>, String>(reply))
            == Err::<ResponseView, ErrorView>(
            ErrorView::ClaudeApi { status: reply.status, body: reply.text@ },
        ),
{
}

/// The key is good exactly if the check of it was answered with one of the two hundreds.
pub proof fn only_a_two_hundred_proves_the_key(reply: HttpReply<Json>, e: String)
    ensures
        key_verdict(Ok::<HttpReply<Json>, String>(reply)) is Ok <==> reply.status / 100 == 2,
        key_verdict(Err::<HttpReply<Json>, String>(e)) is Err,
{
}

/// A call that failed says how: what could not be reached, what could not be read, and
/// what was answered instead.
pub proof fn a_failed_call_says_how(reply: HttpReply<ClaudeResponse>, e: String)
    ensures
        api_result(Err::<HttpReply<ClaudeResponse>, String>(e)) == Err::<ResponseView, ErrorView>(
            ErrorView::ClaudeNetwork(e@),
        ),
        reply.status / 100 == 2 && reply.parsed is Err ==> api_result(
            Ok::<HttpReply<ClaudeResponse>, String>(reply),
        ) == Err::<ResponseView, ErrorView>(ErrorView::ClaudeParse(reply.parsed->Err_0@)),
{
}

/// A refused key is told with the status and with the reason that was given, word for
/// word.
pub proof fn a_refused_key_says_why(reply: HttpReply<Json>, body: Json, m: Seq<char>, e: String)
    requires
        reply.status / 100 != 2,
    ensures
        reply.parsed == Ok::<Json, String>(body) && body@.at("error"@).at("message"@)
            == JsonView::Text(m) ==> key_verdict(Ok::<HttpReply<Json>, String>(reply))
            == Err::<(), Seq<char>>(
            "Anthropic answered "@ + decimal_of(reply.status as nat) + ": "@ + m,
        ),
        reply.parsed is Err ==> key_verdict(Ok::<HttpReply<Json>, String>(reply)) == Err::<
            (),
            Seq<char>,
        >("Anthropic answered "@ + decimal_of(reply.status as nat) + ": "@ + "no detail"@),
        key_verdict(Err::<HttpReply<Json>, String>(e)) == Err::<(), Seq<char>>(
            "could not reach Anthropic: "@ + e@,
        ),
{
}

/// Whether a turn goes on is decided by why the model stopped and by nothing else that
/// the reply holds.
pub proof fn only_the_stop_reason_decides(r: ResponseView, other: ResponseView)
    requires
        r.stop_reason == other.stop_reason,
    ensures
        wants_tools(r) == wants_tools(other),
        ends_turn(r) == ends_turn(other),
        !(wants_tools(r) && ends_turn(r)),
        r.stop_reason == "tool_use"@ ==> wants_tools(r),
        r.stop_reason == "end_turn"@ ==> ends_turn(r),
        r.stop_reason == "max_tokens"@ ==> !wants_tools(r) && !ends_turn(r),
{
    reveal_strlit("tool_use");
    reveal_strlit("end_turn");
    reveal_strlit("max_tokens");
    assert("tool_use"@[0] == 't' && "end_turn"@[0] == 'e' && "max_tokens"@[0] == 'm');
}

} // verus!
