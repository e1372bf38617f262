use whatsapp_bridge::error::BridgeError;
use whatsapp_bridge::http::{HttpReply, Method};
use whatsapp_bridge::json::{member, Json};
use whatsapp_bridge::models::ClaudeMessage;
use whatsapp_bridge::store_client::StoreClient;

fn store() -> StoreClient {
    StoreClient::new("http://store".to_string(), Some("inner".to_string()))
}

fn answer<T>(status: u16, parsed: Result<T, String>) -> Result<HttpReply<T>, String> {
    Ok(HttpReply {
        status,
        status_line: format!("{status}"),
        text: "text".to_string(),
        parsed,
    })
}

#[test]
fn a_channel_is_looked_up_by_its_number() {
    let r = store().get_channel("12/34");
    assert_eq!(r.method, Method::Get);
    assert_eq!(r.url, "http://store/api/internal/whatsapp/channel/12%2F34");
    assert_eq!(r.headers.len(), 1);
    assert_eq!(r.headers[0].name, "X-Internal-Secret");
    assert_eq!(r.headers[0].value, "inner");
    assert!(r.body.is_none() && r.bearer.is_none() && r.timeout_s.is_none());
}

#[test]
fn texts_are_percent_encoded() {
    let r = store().get_channel_by_tenant("aZ09-_.~ ?#%é€");
    assert_eq!(
        r.url,
        "http://store/api/internal/whatsapp/channel/by-tenant/aZ09-_.~%20%3F%23%25%C3%A9%E2%82%AC"
    );
}

#[test]
fn without_a_configured_secret_the_header_is_empty() {
    let r = StoreClient::new("http://s".to_string(), None).get_channel("1");
    assert_eq!(r.headers[0].value, "");
}

#[test]
fn what_a_lookup_found() {
    assert!(matches!(StoreClient::found(answer(200, Ok(5))), Ok(Some(5))));
    assert!(matches!(StoreClient::found(answer(404, Ok(5))), Ok(None)));
    match StoreClient::found(answer(503, Ok(5))) {
        Err(BridgeError::Store { status: 503, message }) => assert_eq!(message, "text"),
        other => panic!("{other:?}"),
    }
    match StoreClient::found::<u8>(answer(200, Err("bad".to_string()))) {
        Err(BridgeError::Other(m)) => assert_eq!(m, "bad"),
        other => panic!("{other:?}"),
    }
    match StoreClient::found::<u8>(Err("down".to_string())) {
        Err(BridgeError::StoreNetwork(m)) => assert_eq!(m, "down"),
        other => panic!("{other:?}"),
    }
}

#[test]
fn a_bot_is_looked_up_on_its_channel() {
    let r = store().get_messaging_channel("telegram", "1/2");
    assert_eq!(r.url, "http://store/api/internal/messaging/channel/telegram/1%2F2");
    let r = store().resolve_identity("telegram", "5", "a/b");
    assert_eq!(r.url, "http://store/api/internal/messaging/identity/telegram/a%2Fb/5");
}

#[test]
fn what_came_of_a_code() {
    let body = Json::object(vec![member("user_email", Json::text("ann@example.com"))]);
    assert_eq!(StoreClient::code_redeemed(answer(200, Ok(body))).unwrap(), "ann@example.com");
    assert_eq!(StoreClient::code_redeemed(answer(200, Ok(Json::Null))).unwrap(), "");
    match StoreClient::code_redeemed(answer(404, Ok(Json::Null))) {
        Err(BridgeError::Store { status: 404, message }) => assert_eq!(message, "text"),
        other => panic!("{other:?}"),
    }
    assert!(matches!(
        StoreClient::code_redeemed(answer(200, Err("bad".to_string()))),
        Err(BridgeError::Other(_))
    ));
    assert!(matches!(
        StoreClient::code_redeemed(Err("down".to_string())),
        Err(BridgeError::StoreNetwork(_))
    ));
}

#[test]
fn a_session_is_loaded_from_where_it_was_saved() {
    let history = vec![ClaudeMessage::new("user", Json::text("hi"))];
    let load = store().get_session("acme", "telegram:5");
    let save = store().save_session("acme", "telegram:5", &history);
    assert_eq!(load.url, "http://store/api/internal/whatsapp/session/acme/telegram%3A5");
    assert_eq!(save.url, load.url);
    assert_eq!(load.method, Method::Get);
    assert_eq!(save.method, Method::Put);
    match save.body.unwrap().get("history") {
        Some(Json::Array(messages)) => {
            assert_eq!(messages.len(), 1);
            assert_eq!(messages[0].text_at("role"), Some("user"));
            assert_eq!(messages[0].text_at("content"), Some("hi"));
        }
        other => panic!("{other:?}"),
    }
}

#[test]
fn two_customers_have_two_sessions() {
    assert_ne!(
        store().get_session("a/b", "c").url,
        store().get_session("a", "b/c").url
    );
}

#[test]
fn a_session_that_cannot_be_had_starts_afresh() {
    let body = || Json::object(vec![member("history", Json::array(Vec::new()))]);
    assert!(matches!(
        StoreClient::session_loaded(answer(200, Ok(body()))),
        Ok(Some(Json::Array(_)))
    ));
    assert!(matches!(StoreClient::session_loaded(answer(500, Ok(body()))), Ok(None)));
    assert!(matches!(StoreClient::session_loaded(answer(404, Ok(body()))), Ok(None)));
    assert!(matches!(StoreClient::session_loaded(answer(200, Ok(Json::Null))), Ok(None)));
    assert!(matches!(
        StoreClient::session_loaded(answer(200, Err("bad".to_string()))),
        Err(BridgeError::Other(_))
    ));
    assert!(matches!(
        StoreClient::session_loaded(Err("down".to_string())),
        Err(BridgeError::StoreNetwork(_))
    ));
}

#[test]
fn an_unreadable_history_starts_afresh() {
    let history = vec![ClaudeMessage::new("user", Json::text("hi"))];
    assert_eq!(StoreClient::history_read(Some(Ok(history))).len(), 1);
    assert!(StoreClient::history_read(Some(Err("no list".to_string()))).is_empty());
    assert!(StoreClient::history_read(None).is_empty());
}

#[test]
fn only_an_unreachable_store_fails_a_save() {
    assert!(StoreClient::session_saved(answer(500, Ok(()))).is_ok());
    assert!(matches!(
        StoreClient::session_saved::<()>(Err("down".to_string())),
        Err(BridgeError::StoreNetwork(m)) if m == "down"
    ));
}

#[test]
fn tools_are_listed_without_the_secret() {
    let r = store().get_tools("a b");
    assert_eq!(r.url, "http://store/api/mcp-tools/a%20b");
    assert!(r.headers.is_empty());
    let body = Json::object(vec![member("tools", Json::text("t"))]);
    assert!(matches!(StoreClient::tools_listed(answer(200, Ok(body))), Ok(Some(Json::Text(_)))));
    assert!(matches!(StoreClient::tools_listed(answer(500, Ok(Json::Null))), Ok(None)));
}

#[test]
fn stale_sessions_are_deleted() {
    let r = store().cleanup_stale_sessions(-30);
    assert_eq!(r.method, Method::Delete);
    assert_eq!(r.url, "http://store/api/internal/whatsapp/sessions/stale?days=-30");
    let deleted = |n: &str| {
        let body = Json::object(vec![member("deleted", Json::Number(n.to_string()))]);
        StoreClient::sessions_cleaned(answer(200, Ok(body))).unwrap()
    };
    assert_eq!(deleted("12"), 12);
    assert_eq!(deleted("18446744073709551615"), u64::MAX);
    assert_eq!(deleted("18446744073709551616"), 0);
    assert_eq!(deleted("-1"), 0);
    assert_eq!(deleted("1.5"), 0);
    assert_eq!(deleted("+1"), 0);
    assert_eq!(StoreClient::sessions_cleaned(answer(200, Ok(Json::Null))).unwrap(), 0);
    match StoreClient::sessions_cleaned(answer(500, Ok(Json::Null))) {
        Err(BridgeError::Store { status: 500, message }) => {
            assert_eq!(message, "Stale session cleanup failed")
        }
        other => panic!("{other:?}"),
    }
}

#[test]
fn credentials_are_had_where_the_store_answers() {
    let r = store().get_downstream_auth("acme");
    assert_eq!(r.url, "http://store/api/tenant/downstream-auth/acme");
    let body = Json::object(vec![member("auth", Json::Bool(true))]);
    assert!(matches!(
        StoreClient::downstream_auth(answer(200, Ok(body))),
        Some(Json::Bool(true))
    ));
    assert!(matches!(
        StoreClient::downstream_auth(answer(200, Err("bad".to_string()))),
        Some(Json::Null)
    ));
    assert!(StoreClient::downstream_auth(answer(500, Ok(Json::Null))).is_none());
    assert!(StoreClient::downstream_auth(Err("down".to_string())).is_none());
}

#[test]
fn a_failed_message_is_recorded() {
    let r = store().log_failed_message("t", "p", "m", "Store", "why");
    assert_eq!(r.method, Method::Post);
    assert_eq!(r.url, "http://store/api/internal/whatsapp/failed-messages");
    match r.body.unwrap() {
        Json::Object(members) => {
            let seen: Vec<(&str, &str)> = members
                .iter()
                .map(|m| (m.key.as_str(), m.value.as_text().unwrap()))
                .collect();
            assert_eq!(
                seen,
                vec![
                    ("tenant_id", "t"),
                    ("customer_phone", "p"),
                    ("message_text", "m"),
                    ("error_type", "Store"),
                    ("error_detail", "why"),
                ]
            );
        }
        other => panic!("{other:?}"),
    }
}
