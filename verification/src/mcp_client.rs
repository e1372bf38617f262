//! The bridge as a client of the tool gateway, which speaks MCP: JSON-RPC over one
//! HTTP endpoint, with the linked person's own key on every call.

use vstd::prelude::*;
use vstd::string::*;

use crate::error::{BridgeError, BridgeResult, ErrorView};
use crate::http::{HttpReply, HttpRequest, Method, RequestView};
use crate::json::{
    json_views, lemma_json_views, member, member_views, members_are_found_by_name, Json, JsonView,
    Member,
};
use crate::models::ToolView;
use crate::text::{chars_of, concat2, decimal, decimal_of, join, joined, same_text, views};

verus! {

/// A tool as the gateway advertises it.
#[derive(Debug)]
pub struct Tool {
    pub name: String,
    pub description: String,
    pub input_schema: Json,
}

impl View for Tool {
    type V = ToolView;

    open spec fn view(&self) -> ToolView {
        ToolView {
            name: self.name@,
            description: self.description@,
            input_schema: self.input_schema@,
        }
    }
}

/// The schema of a tool that takes nothing.
pub open spec fn empty_schema_view() -> JsonView {
    JsonView::Object(
        seq![
            ("type"@, JsonView::Text("object"@)),
            ("properties"@, JsonView::Object(Seq::empty())),
        ],
    )
}

/// The schema that stands in for a tool's where the gateway gives none.
pub fn empty_schema() -> (r: Json)
    ensures
        r@ == empty_schema_view(),
{
    let none: Vec<Member> = Vec::new();
    assert(member_views(none@) =~= Seq::empty());
    let mut members: Vec<Member> = Vec::new();
    members.push(member("type", Json::text("object")));
    members.push(member("properties", Json::object(none)));
    assert(member_views(members@) =~= empty_schema_view()->Object_0);
    Json::object(members)
}

/// The outcome of a tool call, as the model should see it.
#[derive(Debug)]
pub struct ToolOutcome {
    pub text: String,
    /// The tool, or the gateway, refused: something for the model to work around.
    pub is_error: bool,
}

pub struct OutcomeView {
    pub text: Seq<char>,
    pub is_error: bool,
}

impl View for ToolOutcome {
    type V = OutcomeView;

    open spec fn view(&self) -> OutcomeView {
        OutcomeView { text: self.text@, is_error: self.is_error }
    }
}

pub struct McpClient {
    endpoint: String,
    next_id: u64,
}

/// The client as contracts speak of it.
pub struct GatewayView {
    pub endpoint: Seq<char>,
    /// The id that the next call will carry.
    pub next_id: u64,
}

impl View for McpClient {
    type V = GatewayView;

    closed spec fn view(&self) -> GatewayView {
        GatewayView { endpoint: self.endpoint@, next_id: self.next_id }
    }
}

/// `s` without the slashes at its end.
pub open spec fn without_slashes(s: Seq<char>) -> Seq<char>
    decreases s.len(),
{
    if s.len() > 0 && s.last() == '/' {
        without_slashes(s.drop_last())
    } else {
        s
    }
}

impl GatewayView {
    /// The request that calls `method`.
    pub open spec fn request(self, api_key: Seq<char>, method: Seq<char>, params: JsonView) -> RequestView {
        RequestView::bare(Method::Post, self.endpoint).with_bearer(api_key).with_body(
            JsonView::Object(
                seq![
                    ("jsonrpc"@, JsonView::Text("2.0"@)),
                    ("id"@, JsonView::Number(decimal_of(self.next_id as nat))),
                    ("method"@, JsonView::Text(method)),
                    ("params"@, params),
                ],
            ),
        )
    }

    /// The client after one more call. Ids are 64-bit and wrap.
    pub open spec fn advanced(self) -> GatewayView {
        GatewayView {
            next_id: if self.next_id == u64::MAX {
                0
            } else {
                (self.next_id + 1) as u64
            },
            ..self
        }
    }
}

/// The parameters of a tool call.
pub open spec fn call_params(name: Seq<char>, arguments: JsonView) -> JsonView {
    JsonView::Object(seq![("name"@, JsonView::Text(name)), ("arguments"@, arguments)])
}

/// What the reply to a call says: the call's result, or how it failed.
pub open spec fn call_result(reply: Result<HttpReply<Json>, String>) -> Result<JsonView, ErrorView> {
    match reply {
        Err(e) => Err(ErrorView::GatewayNetwork(e@)),
        Ok(reply) => match reply.parsed {
            Err(e) => Err(
                ErrorView::Gateway(
                    "gateway returned non-JSON ("@ + reply.status_line@ + "): "@ + e@,
                ),
            ),
            Ok(payload) => payload_result(payload@),
        },
    }
}

/// What a JSON-RPC payload says. An `error` outweighs a `result`.
pub open spec fn payload_result(payload: JsonView) -> Result<JsonView, ErrorView> {
    match payload.get("error"@) {
        Some(err) => Err(
            ErrorView::Gateway(
                match err.at("message"@).as_text() {
                    Some(m) => m,
                    None => "unknown error"@,
                },
            ),
        ),
        None => match payload.get("result"@) {
            Some(v) => Ok(v),
            None => Err(ErrorView::Gateway("gateway response had neither result nor error"@)),
        },
    }
}

/// A block of a tool's answer that is text.
pub open spec fn is_text_block(b: JsonView) -> bool {
    b.at("type"@) == JsonView::Text("text"@) && b.at("text"@).as_text() is Some
}

/// The texts of a tool's answer.
pub open spec fn block_texts(blocks: Seq<JsonView>) -> Seq<Seq<char>>
    decreases blocks.len(),
{
    if blocks.len() == 0 {
        Seq::empty()
    } else {
        let rest = block_texts(blocks.drop_last());
        if is_text_block(blocks.last()) {
            rest.push(blocks.last().at("text"@).as_text()->0)
        } else {
            rest
        }
    }
}

/// What the model sees of a result: its texts, each on a line of its own, and the
/// whole of it, `rendered`, where they say nothing.
pub open spec fn result_text(result: JsonView, rendered: Seq<char>) -> Seq<char> {
    match result.at("content"@) {
        JsonView::Array(blocks) => {
            let said = joined(block_texts(blocks), "\n"@);
            if said.len() > 0 {
                said
            } else {
                rendered
            }
        },
        _ => rendered,
    }
}

/// The JSON text of the member `key` of the object that `payload` writes in JSON; none
/// where it writes no such thing.
pub uninterp spec fn member_text_of(payload: Seq<char>, key: Seq<char>) -> Option<Seq<char>>;

/// Calls `serde_json::from_str` for a `serde_json::Value`, `get` on what it gives, and
/// `to_string` on the member. The text is a function of the payload and the key.
#[verifier::external_body]
fn member_text(payload: &str, key: &str) -> (r: Option<String>)
    ensures
        match r {
            Some(t) => member_text_of(payload@, key@) == Some(t@),
            None => member_text_of(payload@, key@) is None,
        },
{
    let value: serde_json::Value = serde_json::from_str(payload).ok()?;
    value.get(key).map(|v| v.to_string())
}

/// The JSON text of the result in the body of a reply.
pub open spec fn rendered_result(body: Seq<char>) -> Seq<char> {
    match member_text_of(body, "result"@) {
        Some(t) => t,
        None => Seq::empty(),
    }
}

/// The outcome of a call that came back with `result`.
pub open spec fn result_outcome(result: JsonView, rendered: Seq<char>) -> OutcomeView {
    OutcomeView {
        text: result_text(result, rendered),
        is_error: match result.at("isError"@).as_bool() {
            Some(b) => b,
            None => false,
        },
    }
}

/// The outcome of a call that failed: the model is told, so that it can tell the
/// person.
pub open spec fn failure_outcome(e: ErrorView) -> OutcomeView {
    OutcomeView { text: "Tool call failed: "@ + e.message(), is_error: true }
}

fn text_blocks(blocks: &Vec<Json>) -> (r: Vec<String>)
    ensures
        views(r@) == block_texts(json_views(blocks@)),
{
    let ghost all = json_views(blocks@);
    let mut r: Vec<String> = Vec::new();
    let mut i: usize = 0;
    assert(all.take(0) =~= Seq::empty());
    assert(views(r@) =~= Seq::empty());
    while i < blocks.len()
        invariant
            all == json_views(blocks@),
            i <= blocks.len(),
            views(r@) == block_texts(all.take(i as int)),
        decreases blocks.len() - i,
    {
        let ghost was = r@;
        proof {
            let next = all.take(i + 1);
            assert(next.drop_last() =~= all.take(i as int));
            assert(next.last() == blocks@[i as int]@);
        }
        let is_text = match blocks[i].text_at("type") {
            Some(t) => same_text(t, "text"),
            None => false,
        };
        if is_text {
            match blocks[i].text_at("text") {
                Some(t) => {
                    r.push(t.to_owned());
                    assert(views(r@) =~= views(was).push(t@));
                },
                None => {},
            }
        }
        i = i + 1;
    }
    assert(all.take(blocks.len() as int) =~= all);
    r
}

impl McpClient {
    /// A client of the gateway at `gateway_url`.
    pub fn new(gateway_url: &str) -> (r: McpClient)
        ensures
            r@ == (GatewayView { endpoint: without_slashes(gateway_url@) + "/mcp"@, next_id: 1 }),
    {
        let cs = chars_of(gateway_url);
        let mut n: usize = cs.len();
        assert(gateway_url@.subrange(0, n as int) =~= gateway_url@);
        while n > 0 && cs[n - 1] == '/'
            invariant
                cs@ == gateway_url@,
                n <= cs@.len(),
                without_slashes(gateway_url@) == without_slashes(
                    gateway_url@.subrange(0, n as int),
                ),
            decreases n,
        {
            proof {
                let rest = gateway_url@.subrange(0, n as int);
                assert(rest.last() == '/');
                assert(rest.drop_last() =~= gateway_url@.subrange(0, n - 1));
            }
            n = n - 1;
        }
        proof {
            let rest = gateway_url@.subrange(0, n as int);
            if n > 0 {
                assert(rest.last() == cs@[n - 1]);
            }
            assert(without_slashes(rest) == rest);
        }
        McpClient { endpoint: concat2(gateway_url.substring_char(0, n), "/mcp"), next_id: 1 }
    }

    /// The request that calls `method` with `params`.
    pub fn call(&mut self, api_key: &str, method: &str, params: Json) -> (r: HttpRequest)
        ensures
            r@ == old(self)@.request(api_key@, method@, params@),
            final(self)@ == old(self)@.advanced(),
    {
        let id: u64 = self.next_id;
        self.next_id = id.wrapping_add(1);
        let mut members: Vec<Member> = Vec::new();
        members.push(member("jsonrpc", Json::text("2.0")));
        members.push(member("id", Json::Number(decimal(id))));
        members.push(member("method", Json::text(method)));
        members.push(member("params", params));
        assert(member_views(members@) =~= seq![
            ("jsonrpc"@, JsonView::Text("2.0"@)),
            ("id"@, JsonView::Number(decimal_of(id as nat))),
            ("method"@, JsonView::Text(method@)),
            ("params"@, params@),
        ]);
        HttpRequest::bare(Method::Post, self.endpoint.clone()).with_bearer(api_key).with_body(
            Json::object(members),
        )
    }

    /// The request for the tools that this key may use.
    pub fn list_tools(&mut self, api_key: &str) -> (r: HttpRequest)
        ensures
            r@ == old(self)@.request(api_key@, "tools/list"@, JsonView::Object(Seq::empty())),
            final(self)@ == old(self)@.advanced(),
    {
        let none: Vec<Member> = Vec::new();
        assert(member_views(none@) =~= Seq::empty());
        self.call(api_key, "tools/list", Json::object(none))
    }

    /// The request that calls a tool.
    pub fn call_tool(&mut self, api_key: &str, name: &str, arguments: &Json) -> (r: HttpRequest)
        ensures
            r@ == old(self)@.request(api_key@, "tools/call"@, call_params(name@, arguments@)),
            final(self)@ == old(self)@.advanced(),
    {
        let mut members: Vec<Member> = Vec::new();
        members.push(member("name", Json::text(name)));
        members.push(member("arguments", arguments.duplicate()));
        assert(member_views(members@) =~= call_params(name@, arguments@)->Object_0);
        self.call(api_key, "tools/call", Json::object(members))
    }

    /// What the reply to a call says.
    pub fn called(reply: Result<HttpReply<Json>, String>) -> (r: BridgeResult<Json>)
        ensures
            match r {
                Ok(v) => call_result(reply) == Ok::<JsonView, ErrorView>(v@),
                Err(e) => call_result(reply) == Err::<JsonView, ErrorView>(e@),
            },
    {
        match reply {
            Err(e) => Err(BridgeError::GatewayNetwork(e)),
            Ok(reply) => match reply.parsed {
                Err(e) => {
                    let mut m: String = concat2(
                        "gateway returned non-JSON (",
                        reply.status_line.as_str(),
                    );
                    m.append("): ");
                    m.append(e.as_str());
                    Err(BridgeError::Gateway(m))
                },
                Ok(payload) => {
                    match payload.get("error") {
                        Some(err) => {
                            let m: &str = match err.text_at("message") {
                                Some(m) => m,
                                None => "unknown error",
                            };
                            return Err(BridgeError::Gateway(m.to_owned()));
                        },
                        None => {},
                    }
                    match payload.get("result") {
                        Some(v) => Ok(v.duplicate()),
                        None => Err(
                            BridgeError::Gateway(
                                "gateway response had neither result nor error".to_owned(),
                            ),
                        ),
                    }
                },
            },
        }
    }

    /// The part of a `tools/list` result that lists the tools; `Null` where there is
    /// none.
    pub fn listed(result: &Json) -> (r: Json)
        ensures
            r@ == result@.at("tools"@),
    {
        match result.get("tools") {
            Some(v) => v.duplicate(),
            None => Json::Null,
        }
    }

    /// The tools that a list was read as, or why it is not a list of tools.
    pub fn tools_read(read: Result<Vec<Tool>, String>) -> (r: BridgeResult<Vec<Tool>>)
        ensures
            match read {
                Ok(tools) => r == Ok::<Vec<Tool>, BridgeError>(tools),
                Err(e) => r matches Err(f) && f@ == ErrorView::Gateway(
                    "tools/list returned an unexpected shape: "@ + e@,
                ),
            },
    {
        match read {
            Ok(tools) => Ok(tools),
            Err(e) => Err(
                BridgeError::Gateway(
                    concat2("tools/list returned an unexpected shape: ", e.as_str()),
                ),
            ),
        }
    }

    /// The outcome of a tool call that came back with `reply`, whose `text` is the body
    /// that `parsed` was read from.
    pub fn tool_called(reply: Result<HttpReply<Json>, String>) -> (r: ToolOutcome)
        ensures
            match call_result(reply) {
                Ok(result) => r@ == result_outcome(result, rendered_result(reply->Ok_0.text@)),
                Err(e) => r@ == failure_outcome(e),
            },
    {
        let rendered: Option<String> = match &reply {
            Ok(reply) => member_text(reply.text.as_str(), "result"),
            Err(_) => None,
        };
        let rendered: String = match rendered {
            Some(t) => t,
            None => String::new(),
        };
        Self::outcome(Self::called(reply), rendered.as_str())
    }

    /// The outcome of a tool call, where `rendered` is the JSON text of its result.
    pub fn outcome(called: BridgeResult<Json>, rendered: &str) -> (r: ToolOutcome)
        ensures
            match called {
                Ok(result) => r@ == result_outcome(result@, rendered@),
                Err(e) => r@ == failure_outcome(e@),
            },
    {
        match called {
            Ok(result) => {
                let is_error = match result.get("isError") {
                    Some(v) => match v.as_bool() {
                        Some(b) => b,
                        None => false,
                    },
                    None => false,
                };
                match result.get("content") {
                    Some(v) => match v {
                        Json::Array(blocks) => {
                            proof {
                                lemma_json_views(*v);
                            }
                            let said: String = join(&text_blocks(blocks), "\n");
                            if !said.as_str().is_empty() {
                                return ToolOutcome { text: said, is_error };
                            }
                        },
                        _ => {},
                    },
                    None => {},
                }
                ToolOutcome { text: rendered.to_owned(), is_error }
            },
            Err(e) => ToolOutcome {
                text: concat2("Tool call failed: ", e.message().as_str()),
                is_error: true,
            },
        }
    }
}

/// The calls of one client carry distinct ids, until they have run through all the
/// 64-bit numbers: the `n`th call after one with the id `k` carries `k + n`.
pub proof fn call_ids_count_up(g: GatewayView, n: nat)
    requires
        g.next_id + n <= u64::MAX,
    ensures
        advanced_by(g, n).next_id == g.next_id + n,
        advanced_by(g, n).endpoint == g.endpoint,
    decreases n,
{
    if n > 0 {
        call_ids_count_up(g, (n - 1) as nat);
    }
}

/// The client after `n` calls.
pub open spec fn advanced_by(g: GatewayView, n: nat) -> GatewayView
    decreases n,
{
    if n == 0 {
        g
    } else {
        advanced_by(g, (n - 1) as nat).advanced()
    }
}

/// A call that came back with a result is an error exactly if the result says so: its
/// `isError` is `true`. Anything else there, `false` and nothing included, is none.
pub proof fn only_true_is_an_error(result: JsonView, rendered: Seq<char>)
    ensures
        result_outcome(result, rendered).is_error <==> result.at("isError"@) == JsonView::Bool(
            true,
        ),
{
}

/// What the model reads of a result are its text blocks, each on a line of its own, in
/// their order: one more block adds its text at the end where it is one of text, and
/// nothing where it is not.
pub proof fn text_blocks_are_read_in_order(blocks: Seq<JsonView>, b: JsonView, t: Seq<char>)
    ensures
        block_texts(Seq::empty()) == Seq::<Seq<char>>::empty(),
        b.at("type"@) == JsonView::Text("text"@) && b.at("text"@) == JsonView::Text(t)
            ==> block_texts(blocks.push(b)) == block_texts(blocks).push(t),
        b.at("type"@) != JsonView::Text("text"@) || !(b.at("text"@) is Text) ==> block_texts(
            blocks.push(b),
        ) == block_texts(blocks),
{
    assert(blocks.push(b).drop_last() =~= blocks);
}

/// A result whose text blocks say something is read as what they say, and any other
/// result as the JSON that it is.
pub proof fn a_result_is_read_as_its_text(
    members: Seq<(Seq<char>, JsonView)>,
    blocks: Seq<JsonView>,
    rendered: Seq<char>,
)
    ensures
        ({
            let result = JsonView::Object(members);
            let lines = joined(block_texts(blocks), seq!['\n']);
            &&& result.at("content"@) == JsonView::Array(blocks) ==> result_outcome(
                result,
                rendered,
            ).text == (if lines.len() > 0 {
                lines
            } else {
                rendered
            })
            &&& !(result.at("content"@) is Array) ==> result_outcome(result, rendered).text
                == rendered
        }),
{
    reveal_strlit("\n");
    assert("\n"@ =~= seq!['\n']);
}

/// A call that failed is always told to the model as an error, in the words of the
/// failure.
pub proof fn a_failed_call_is_told_as_an_error(e: ErrorView)
    ensures
        failure_outcome(e).is_error,
        failure_outcome(e).text == "Tool call failed: "@ + e.message(),
{
}

/// A payload with an `error` is a refusal, whatever else it holds, in the gateway's own
/// words where it gives any; one without is its `result`.
pub proof fn an_error_outweighs_a_result(
    payload: JsonView,
    err: JsonView,
    m: Seq<char>,
    v: JsonView,
)
    ensures
        payload.get("error"@) == Some(err) ==> payload_result(payload) is Err,
        payload.get("error"@) == Some(err) && err.at("message"@) == JsonView::Text(m)
            ==> payload_result(payload) == Err::<JsonView, ErrorView>(ErrorView::Gateway(m)),
        payload.get("error"@) is None && payload.get("result"@) == Some(v) ==> payload_result(
            payload,
        ) == Ok::<JsonView, ErrorView>(v),
        payload.get("error"@) is None && payload.get("result"@) is None ==> payload_result(
            payload,
        ) is Err,
{
}

/// A call is posted to the gateway with the caller's own key, and says which method it
/// calls, with what, and under which number.
pub proof fn a_call_says_what_it_calls(
    g: GatewayView,
    api_key: Seq<char>,
    method: Seq<char>,
    params: JsonView,
)
    ensures
        ({
            let r = g.request(api_key, method, params);
            &&& r.method == Method::Post
            &&& r.url == g.endpoint
            &&& r.bearer == Some(api_key)
            &&& r.body is Some
            &&& r.body->0.at("jsonrpc"@) == JsonView::Text("2.0"@)
            &&& r.body->0.at("id"@) == JsonView::Number(decimal_of(g.next_id as nat))
            &&& r.body->0.at("method"@) == JsonView::Text(method)
            &&& r.body->0.at("params"@) == params
        }),
{
    reveal_strlit("jsonrpc");
    reveal_strlit("id");
    reveal_strlit("method");
    reveal_strlit("params");
    assert("jsonrpc"@.len() == 7 && "id"@.len() == 2 && "method"@.len() == 6);
    assert("method"@[0] != "params"@[0]);
    let m = g.request(api_key, method, params).body->0->Object_0;
    members_are_found_by_name(m, "jsonrpc"@, 0);
    members_are_found_by_name(m, "id"@, 1);
    members_are_found_by_name(m, "method"@, 2);
    members_are_found_by_name(m, "params"@, 3);
}

/// A tool call names the tool and hands it its arguments as they are.
pub proof fn a_tool_call_hands_over_its_arguments(name: Seq<char>, arguments: JsonView)
    ensures
        call_params(name, arguments).at("name"@) == JsonView::Text(name),
        call_params(name, arguments).at("arguments"@) == arguments,
{
    reveal_strlit("name");
    reveal_strlit("arguments");
    assert("name"@.len() != "arguments"@.len());
    let m = call_params(name, arguments)->Object_0;
    members_are_found_by_name(m, "name"@, 0);
    members_are_found_by_name(m, "arguments"@, 1);
}

/// The slashes at the end of an address make no difference, and nothing else is taken
/// from it.
pub proof fn slashes_at_the_end_make_no_difference(s: Seq<char>)
    ensures
        without_slashes(s.push('/')) == without_slashes(s),
        s.len() == 0 || s.last() != '/' ==> without_slashes(s) == s,
{
    assert(s.push('/').drop_last() =~= s);
}

/// A gateway that could not be reached is told from one whose answer could not be read,
/// and each is told with its reason. What was read is read the same whatever the status.
pub proof fn a_lost_call_says_why(reply: HttpReply<Json>, e: String)
    ensures
        call_result(Err::<HttpReply<Json>, String>(e)) == Err::<JsonView, ErrorView>(
            ErrorView::GatewayNetwork(e@),
        ),
        reply.parsed is Err ==> call_result(Ok::<HttpReply<Json>, String>(reply)) == Err::<
            JsonView,
            ErrorView,
        >(
            ErrorView::Gateway(
                "gateway returned non-JSON ("@ + reply.status_line@ + "): "@
                    + reply.parsed->Err_0@,
            ),
        ),
        reply.parsed is Ok ==> call_result(Ok::<HttpReply<Json>, String>(reply)) == payload_result(
            reply.parsed->Ok_0@,
        ),
{
}

/// The schema of a tool that gives none takes an object and asks nothing of it.
pub proof fn a_missing_schema_asks_nothing(key: Seq<char>)
    ensures
        empty_schema_view().at("type"@) == JsonView::Text("object"@),
        empty_schema_view().at("properties"@) == JsonView::Object(Seq::empty()),
        empty_schema_view().at("properties"@).get(key) is None,
{
    reveal_strlit("type");
    reveal_strlit("properties");
    assert("type"@.len() != "properties"@.len());
    let m = empty_schema_view()->Object_0;
    members_are_found_by_name(m, "type"@, 0);
    members_are_found_by_name(m, "properties"@, 1);
}

/// A result is rendered as it stands in the body, however long, and as nothing where the
/// body holds none.
pub proof fn a_result_is_rendered_as_it_stands(body: Seq<char>)
    ensures
        member_text_of(body, "result"@) is Some ==> rendered_result(body) == member_text_of(
            body,
            "result"@,
        )->0,
        member_text_of(body, "result"@) is None ==> rendered_result(body).len() == 0,
{
}

} // verus!
