use whatsapp_bridge::error::BridgeError;
use whatsapp_bridge::http::{HttpReply, Method};
use whatsapp_bridge::json::{member, Json};
use whatsapp_bridge::mcp_client::{empty_schema, McpClient, Tool};

fn reply(parsed: Result<Json, String>) -> Result<HttpReply<Json>, String> {
    Ok(HttpReply {
        status: 502,
        status_line: "502 Bad Gateway".into(),
        text: String::new(),
        parsed,
    })
}

#[test]
fn the_endpoint_has_one_slash() {
    for url in ["http://gw", "http://gw/", "http://gw///"] {
        let r = McpClient::new(url).list_tools("k");
        assert_eq!(r.url, "http://gw/mcp");
        assert_eq!(r.method, Method::Post);
        assert_eq!(r.bearer.as_deref(), Some("k"));
        let body = r.body.unwrap();
        assert_eq!(body.text_at("method"), Some("tools/list"));
        assert!(matches!(body.get("params"), Some(Json::Object(m)) if m.is_empty()));
    }
}

#[test]
fn calls_are_numbered_from_one() {
    let mut mcp = McpClient::new("http://gw");
    for expected in ["1", "2", "3"] {
        let body = mcp.call("k", "ping", Json::Null).body.unwrap();
        assert_eq!(body.text_at("jsonrpc"), Some("2.0"));
        assert!(matches!(body.get("id"), Some(Json::Number(n)) if n == expected));
    }
}

#[test]
fn what_a_call_came_back_with() {
    let result = Json::object(vec![member("result", Json::text("r"))]);
    assert!(matches!(McpClient::called(reply(Ok(result))), Ok(Json::Text(t)) if t == "r"));

    let refused = Json::object(vec![
        member("result", Json::text("r")),
        member("error", Json::object(vec![member("message", Json::text("no credits"))])),
    ]);
    assert!(matches!(
        McpClient::called(reply(Ok(refused))),
        Err(BridgeError::Gateway(m)) if m == "no credits"
    ));

    let unnamed = Json::object(vec![member("error", Json::Null)]);
    assert!(matches!(
        McpClient::called(reply(Ok(unnamed))),
        Err(BridgeError::Gateway(m)) if m == "unknown error"
    ));

    assert!(matches!(
        McpClient::called(reply(Ok(Json::Null))),
        Err(BridgeError::Gateway(m)) if m == "gateway response had neither result nor error"
    ));
    assert!(matches!(
        McpClient::called(reply(Err("eof".into()))),
        Err(BridgeError::Gateway(m)) if m == "gateway returned non-JSON (502 Bad Gateway): eof"
    ));
    assert!(matches!(
        McpClient::called(Err("down".into())),
        Err(BridgeError::GatewayNetwork(m)) if m == "down"
    ));
}

fn block(kind: &str, text: Json) -> Json {
    Json::object(vec![member("type", Json::text(kind)), member("text", text)])
}

#[test]
fn the_text_of_a_result_is_its_text_blocks() {
    let result = Json::object(vec![
        member("isError", Json::Bool(true)),
        member("content", Json::array(vec![
            block("text", Json::text("a")),
            block("image", Json::text("no")),
            block("text", Json::Null),
            block("text", Json::text("b")),
        ])),
    ]);
    let o = McpClient::outcome(Ok(result), "{rendered}");
    assert_eq!((o.text.as_str(), o.is_error), ("a\nb", true));
}

#[test]
fn a_result_without_text_is_shown_as_it_is() {
    for content in [Json::Null, Json::array(Vec::new()), Json::array(vec![block("text", Json::text(""))])] {
        let result = Json::object(vec![member("content", content)]);
        let o = McpClient::outcome(Ok(result), "{rendered}");
        assert_eq!((o.text.as_str(), o.is_error), ("{rendered}", false));
    }
}

fn came_back(text: &str, result: Json) -> Result<HttpReply<Json>, String> {
    Ok(HttpReply {
        status: 200,
        status_line: "200 OK".into(),
        text: text.into(),
        parsed: Ok(Json::object(vec![member("result", result)])),
    })
}

#[test]
fn the_result_of_a_call_is_shown_as_json() {
    let result = Json::object(vec![
        member("b", Json::Number("1".into())),
        member("a", Json::array(vec![Json::Bool(true), Json::text("x\"y")])),
    ]);
    let body = r#" { "id": 1, "result": { "b": 1, "a": [ true, "x\"y" ] } } "#;
    let o = McpClient::tool_called(came_back(body, result));
    assert_eq!((o.text.as_str(), o.is_error), (r#"{"a":[true,"x\"y"],"b":1}"#, false));
}

#[test]
fn the_outcome_of_a_call_is_told() {
    let said = Json::object(vec![member("content", Json::array(vec![block("text", Json::text("hi"))]))]);
    let o = McpClient::tool_called(came_back("{}", said));
    assert_eq!((o.text.as_str(), o.is_error), ("hi", false));
    let o = McpClient::tool_called(came_back("no json", Json::Null));
    assert_eq!((o.text.as_str(), o.is_error), ("", false));
    let o = McpClient::tool_called(Err("down".into()));
    assert_eq!((o.text.as_str(), o.is_error), ("Tool call failed: Gateway unreachable: down", true));
}

#[test]
fn a_refused_call_is_told_to_the_model() {
    let o = McpClient::outcome(Err(BridgeError::Gateway("unknown tool".into())), "");
    assert_eq!((o.text.as_str(), o.is_error), ("Tool call failed: Gateway error: unknown tool", true));
}

#[test]
fn listed_tools_are_read() {
    let result = Json::object(vec![member("tools", Json::array(Vec::new()))]);
    assert!(matches!(McpClient::listed(&result), Json::Array(_)));
    assert!(matches!(McpClient::listed(&Json::Null), Json::Null));
    let tools = vec![Tool { name: "t".into(), description: String::new(), input_schema: empty_schema() }];
    assert_eq!(McpClient::tools_read(Ok(tools)).unwrap()[0].name, "t");
    assert!(matches!(
        McpClient::tools_read(Err("not a list".into())),
        Err(BridgeError::Gateway(m)) if m == "tools/list returned an unexpected shape: not a list"
    ));
    assert_eq!(empty_schema().text_at("type"), Some("object"));
}
