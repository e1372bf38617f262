use whatsapp_bridge::circuit_breaker::{CircuitBreaker, CircuitState};
use whatsapp_bridge::claude::{
    content_blocks_to_value, extract_text, requested_tools, to_claude_tool, Attempts, ClaudeClient,
    Conversation, ModelStep, RetryStep, ToolRound,
};
use whatsapp_bridge::error::BridgeError;
use whatsapp_bridge::http::{HttpReply, Method};
use whatsapp_bridge::json::{member, Json};
use whatsapp_bridge::mcp_client::{McpClient, Tool, ToolOutcome};
use whatsapp_bridge::models::{ClaudeMessage, ClaudeResponse, ContentBlock};

fn show(j: &Json) -> String {
    match j {
        Json::Null => "null".to_string(),
        Json::Bool(b) => format!("{b}"),
        Json::Number(n) => n.clone(),
        Json::Text(t) => format!("{t:?}"),
        Json::Array(v) => format!("[{}]", v.iter().map(show).collect::<Vec<_>>().join(",")),
        Json::Object(m) => format!(
            "{{{}}}",
            m.iter().map(|m| format!("{:?}:{}", m.key, show(&m.value))).collect::<Vec<_>>().join(",")
        ),
    }
}

fn client_with(threshold: u32) -> ClaudeClient {
    ClaudeClient::new("sk".into(), "model-1".into(), 512, CircuitBreaker::with_limits(threshold, 30))
}

fn text_block(text: &str) -> ContentBlock {
    ContentBlock {
        block_type: "text".into(),
        text: Some(text.into()),
        id: None,
        name: None,
        input: None,
    }
}

fn tool_block(id: &str, name: &str) -> ContentBlock {
    ContentBlock {
        block_type: "tool_use".into(),
        text: None,
        id: Some(id.into()),
        name: Some(name.into()),
        input: Some(Json::object(vec![member("q", Json::text("x"))])),
    }
}

fn said(stop_reason: &str, content: Vec<ContentBlock>) -> ClaudeResponse {
    ClaudeResponse { stop_reason: stop_reason.into(), content }
}

#[test]
fn the_text_of_a_reply_is_its_text_blocks() {
    let mut hidden = text_block("hidden");
    hidden.block_type = "thinking".into();
    let mut missing = text_block("");
    missing.text = None;
    assert_eq!(
        extract_text(&vec![text_block("a"), tool_block("1", "t"), hidden, missing, text_block("b")]),
        "a\nb"
    );
    assert_eq!(extract_text(&Vec::new()), "");
}

#[test]
fn blocks_keep_all_their_fields() {
    let v = content_blocks_to_value(&vec![text_block("a"), tool_block("1", "t")]);
    assert_eq!(
        v.iter().map(show).collect::<Vec<_>>(),
        vec![
            r#"{"type":"text","text":"a","id":null,"name":null,"input":null}"#,
            r#"{"type":"tool_use","text":null,"id":"1","name":"t","input":{"q":"x"}}"#,
        ]
    );
}

#[test]
fn calls_are_read_out_of_a_reply() {
    let bare = ContentBlock {
        block_type: "tool_use".into(),
        text: None,
        id: None,
        name: None,
        input: None,
    };
    let uses = requested_tools(&vec![text_block("let me see"), tool_block("1", "t"), bare]);
    assert_eq!(uses.len(), 2);
    assert_eq!((uses[0].id.as_str(), uses[0].name.as_str()), ("1", "t"));
    assert_eq!((uses[1].id.as_str(), uses[1].name.as_str()), ("", ""));
    assert_eq!(show(&uses[1].input), "{}");
}

fn tool() -> Tool {
    Tool { name: "search".into(), description: "Finds.".into(), input_schema: Json::Bool(true) }
}

#[test]
fn a_tool_is_told_to_the_model() {
    let t = to_claude_tool(&tool());
    assert_eq!((t.name.as_str(), t.description.as_str()), ("search", "Finds."));
    assert_eq!(show(&t.input_schema), "true");
}

#[test]
fn the_model_is_asked_with_the_whole_conversation() {
    let claude = client_with(5);
    let history = vec![ClaudeMessage::new("assistant", Json::text("hello"))];
    let convo = claude.run("sys", history, "hi", &vec![tool()], "person");
    let r = claude.call_api(&claude.request(&convo));
    assert_eq!(r.method, Method::Post);
    assert_eq!(r.url, "https://api.anthropic.com/v1/messages");
    let headers: Vec<(&str, &str)> =
        r.headers.iter().map(|h| (h.name.as_str(), h.value.as_str())).collect();
    assert_eq!(
        headers,
        vec![
            ("x-api-key", "sk"),
            ("anthropic-version", "2023-06-01"),
            ("content-type", "application/json"),
        ]
    );
    assert_eq!(
        show(&r.body.unwrap()),
        concat_lines(&[
            r#"{"model":"model-1","max_tokens":512,"system":"sys","#,
            r#""tools":[{"name":"search","description":"Finds.","input_schema":true}],"#,
            r#""messages":[{"role":"assistant","content":"hello"},{"role":"user","content":"hi"}]}"#,
        ])
    );
}

fn concat_lines(lines: &[&str]) -> String {
    lines.concat()
}

fn answer<T>(status: u16, parsed: Result<T, String>) -> Result<HttpReply<T>, String> {
    Ok(HttpReply { status, status_line: String::new(), text: "why".into(), parsed })
}

#[test]
fn what_an_api_reply_says() {
    assert!(ClaudeClient::api_called(answer(200, Ok(said("end_turn", Vec::new())))).is_ok());
    assert!(matches!(
        ClaudeClient::api_called(answer(529, Ok(said("end_turn", Vec::new())))),
        Err(BridgeError::ClaudeApi { status: 529, body }) if body == "why"
    ));
    assert!(matches!(
        ClaudeClient::api_called(answer(200, Err("bad".into()))),
        Err(BridgeError::ClaudeParse(m)) if m == "bad"
    ));
    assert!(matches!(
        ClaudeClient::api_called(Err("down".into())),
        Err(BridgeError::ClaudeNetwork(m)) if m == "down"
    ));
}

#[test]
fn the_key_is_checked_without_a_token() {
    let r = client_with(5).check_key();
    assert_eq!(r.method, Method::Get);
    assert_eq!(r.url, "https://api.anthropic.com/v1/models?limit=1");
    assert_eq!(r.timeout_s, Some(5));
    assert_eq!(r.headers[0].value, "sk");
    assert_eq!(client_with(5).model(), "model-1");
}

#[test]
fn what_a_check_of_the_key_found() {
    assert_eq!(ClaudeClient::key_checked(answer(200, Err("bad".into()))), Ok(()));
    let body = Json::object(vec![member(
        "error",
        Json::object(vec![member("message", Json::text("invalid x-api-key"))]),
    )]);
    assert_eq!(
        ClaudeClient::key_checked(answer(401, Ok(body))),
        Err("Anthropic answered 401: invalid x-api-key".to_string())
    );
    assert_eq!(
        ClaudeClient::key_checked(answer(500, Err("bad".into()))),
        Err("Anthropic answered 500: no detail".to_string())
    );
    assert_eq!(
        ClaudeClient::key_checked(Err("down".into())),
        Err("could not reach Anthropic: down".to_string())
    );
}

fn begin(claude: &mut ClaudeClient) -> Attempts {
    match claude.call_api_with_retry() {
        Ok(a) => a,
        Err(e) => panic!("{e:?}"),
    }
}

fn waited(step: RetryStep) -> (u64, Attempts) {
    match step {
        RetryStep::Wait { backoff_ms, attempts } => (backoff_ms, attempts),
        RetryStep::Done(r) => panic!("{r:?}"),
    }
}

fn overloaded() -> BridgeError {
    BridgeError::ClaudeApi { status: 529, body: String::new() }
}

#[test]
fn a_call_is_retried_three_times() {
    let mut claude = client_with(1);
    let attempts = begin(&mut claude);
    let (first, attempts) = waited(claude.attempted(attempts, Err(overloaded())));
    assert_eq!(first, 1000);
    let (second, attempts) =
        waited(claude.attempted(attempts, Err(BridgeError::ClaudeNetwork("x".into()))));
    assert_eq!(second, 2000);
    let limited = || BridgeError::ClaudeApi { status: 429, body: String::new() };
    let (third, attempts) = waited(claude.attempted(attempts, Err(limited())));
    assert_eq!(third, 4000);
    assert_eq!(claude.circuit_state(), CircuitState::Closed);
    assert!(matches!(
        claude.attempted(attempts, Err(limited())),
        RetryStep::Done(Err(BridgeError::ClaudeApi { status: 429, .. }))
    ));
    assert_eq!(claude.circuit_state(), CircuitState::Open);
    assert!(matches!(claude.call_api_with_retry(), Err(BridgeError::CircuitOpen)));
}

#[test]
fn what_will_not_pass_by_itself_is_not_tried_again() {
    for e in [
        BridgeError::ClaudeApi { status: 400, body: String::new() },
        BridgeError::ClaudeApi { status: 499, body: String::new() },
        BridgeError::ClaudeApi { status: 600, body: String::new() },
        BridgeError::ClaudeParse("x".into()),
    ] {
        let mut claude = client_with(1);
        let attempts = begin(&mut claude);
        assert!(matches!(claude.attempted(attempts, Err(e)), RetryStep::Done(Err(_))));
        assert_eq!(claude.circuit_state(), CircuitState::Open);
    }
}

#[test]
fn a_success_ends_a_call_and_closes_the_circuit() {
    let mut claude = client_with(2);
    let attempts = begin(&mut claude);
    assert!(matches!(
        claude.attempted(attempts, Err(BridgeError::ClaudeParse("x".into()))),
        RetryStep::Done(Err(_))
    ));
    let attempts = begin(&mut claude);
    let (_, attempts) = waited(claude.attempted(attempts, Err(overloaded())));
    assert!(matches!(
        claude.attempted(attempts, Ok(said("end_turn", Vec::new()))),
        RetryStep::Done(Ok(_))
    ));
    let attempts = begin(&mut claude);
    assert!(matches!(
        claude.attempted(attempts, Err(BridgeError::ClaudeParse("x".into()))),
        RetryStep::Done(Err(_))
    ));
    assert_eq!(claude.circuit_state(), CircuitState::Closed);
}

fn conversation() -> Conversation {
    client_with(5).run("sys", Vec::new(), "hi", &Vec::new(), "person")
}

#[test]
fn the_end_of_a_turn_gives_the_text_and_the_history() {
    match conversation().answered(Ok(said("end_turn", vec![text_block("hello")]))) {
        ModelStep::Done(Ok((text, history))) => {
            assert_eq!(text, "hello");
            assert_eq!(history.len(), 2);
            assert_eq!(history[0].role, "user");
            assert_eq!(history[1].role, "assistant");
            assert_eq!(
                show(&history[1].content),
                r#"[{"type":"text","text":"hello","id":null,"name":null,"input":null}]"#
            );
        }
        _ => panic!("not over"),
    }
}

#[test]
fn another_stop_keeps_the_text_alone() {
    match conversation().answered(Ok(said("max_tokens", vec![text_block("hel")]))) {
        ModelStep::Done(Ok((text, history))) => {
            assert_eq!(text, "hel");
            assert_eq!(show(&history[1].content), r#""hel""#);
        }
        _ => panic!("not over"),
    }
}

#[test]
fn a_failed_call_ends_the_turn() {
    assert!(matches!(
        conversation().answered(Err(BridgeError::CircuitOpen)),
        ModelStep::Done(Err(BridgeError::CircuitOpen))
    ));
}

fn round_of(c: Conversation, blocks: Vec<ContentBlock>) -> ToolRound {
    match c.answered(Ok(said("tool_use", blocks))) {
        ModelStep::Tools(round) => round,
        ModelStep::Done(_) => panic!("over"),
    }
}

#[test]
fn tools_are_called_with_the_persons_key_and_their_outcomes_told() {
    let claude = client_with(5);
    let convo = claude.run("sys", Vec::new(), "hi", &Vec::new(), "person");
    let mut mcp = McpClient::new("http://gw");
    let mut round = round_of(convo, vec![tool_block("1", "search"), text_block("x"), tool_block("2", "send")]);

    let first = round.next_request(&mut mcp).unwrap();
    assert_eq!(first.bearer.as_deref(), Some("person"));
    assert_eq!(
        show(&first.body.unwrap()),
        r#"{"jsonrpc":"2.0","id":1,"method":"tools/call","params":{"name":"search","arguments":{"q":"x"}}}"#
    );
    round.take_outcome(ToolOutcome { text: "found".into(), is_error: false });
    assert_eq!(round.next_call().unwrap().name, "send");
    let second = round.next_request(&mut mcp).unwrap();
    assert!(show(&second.body.unwrap()).contains(r#""id":2,"#));
    round.take_outcome(ToolOutcome { text: "no".into(), is_error: true });
    assert!(round.next_request(&mut mcp).is_none());

    let convo = match round.finish() {
        Ok(c) => c,
        Err(e) => panic!("{e:?}"),
    };
    let ask = claude.request(&convo);
    assert_eq!(ask.messages.len(), 3);
    assert_eq!(ask.messages[2].role, "user");
    assert_eq!(
        show(&ask.messages[2].content),
        concat_lines(&[
            r#"[{"type":"tool_result","tool_use_id":"1","content":"found","is_error":false},"#,
            r#"{"type":"tool_result","tool_use_id":"2","content":"no","is_error":true}]"#,
        ])
    );
}

#[test]
fn ten_rounds_exhaust_a_turn() {
    let mut convo = conversation();
    for _ in 0..9 {
        convo = match round_of(convo, Vec::new()).finish() {
            Ok(c) => c,
            Err(e) => panic!("{e:?}"),
        };
    }
    match round_of(convo, Vec::new()).finish() {
        Err(e) => assert_eq!(e.message(), "ClaudeApi tool loop exceeded 10 rounds"),
        Ok(_) => panic!("went on"),
    }
}
