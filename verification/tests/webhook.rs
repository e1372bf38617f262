use whatsapp_bridge::error::BridgeError;
use whatsapp_bridge::json::{member, Json};
use whatsapp_bridge::models::{
    Change, ChangeValue, ChannelInfo, Entry, Metadata, WaMessage, WaText, WebhookPayload,
};
use whatsapp_bridge::store_client::StoreClient;
use whatsapp_bridge::webhook::{
    authenticate, channel_or_end, flag_is_on, incoming, mac_verdict, process_payload,
    tenant_secret, usable_secret, validate_signature, verify, Authentic, Delivery, Received,
    VerifyQuery, CHANNEL,
};
use whatsapp_bridge::whatsapp_api::WhatsAppClient;

const BODY: &[u8] = b"The quick brown fox jumps over the lazy dog";
const CODE: &str = "f7bc83f430538424b13298e6aa6fb143ef4d59a14946175997479dbc2d1a3cd8";

fn signature() -> String {
    format!("sha256={CODE}")
}

#[test]
fn a_signature_is_the_code_of_the_body() {
    assert_eq!(validate_signature("key", &signature(), BODY), Ok(()));
    assert_eq!(
        validate_signature("key", &format!("sha256={}", CODE.to_uppercase()), BODY),
        Ok(())
    );
}

#[test]
fn the_empty_key_and_body_have_a_code_too() {
    let code = "b613679a0814d9ec772f95d778c35fc5ff1697c493715653c6c712144292c5ad";
    assert_eq!(validate_signature("", &format!("sha256={code}"), b""), Ok(()));
}

#[test]
fn what_is_wrong_with_a_signature() {
    let wrong = |header: &str| validate_signature("key", header, BODY).unwrap_err();
    assert_eq!(wrong(CODE), "Missing sha256= prefix");
    assert_eq!(wrong("SHA256=00"), "Missing sha256= prefix");
    assert_eq!(wrong("sha256=abc"), "Invalid hex in signature header");
    assert_eq!(wrong("sha256=zz"), "Invalid hex in signature header");
    assert_eq!(wrong("sha256=é"), "Invalid hex in signature header");
    assert_eq!(wrong("sha256="), "Signature mismatch");
    assert_eq!(wrong(&format!("sha256={}", &CODE[..62])), "Signature mismatch");
    assert_eq!(wrong(&format!("sha256={CODE}00")), "Signature mismatch");
    assert_eq!(
        validate_signature("other", &signature(), BODY).unwrap_err(),
        "Signature mismatch"
    );
    assert_eq!(
        validate_signature("key", &signature(), b"another body").unwrap_err(),
        "Signature mismatch"
    );
}

#[test]
fn what_a_comparison_says() {
    assert_eq!(mac_verdict(Some(true)), Ok(()));
    assert_eq!(mac_verdict(Some(false)), Err("Signature mismatch".to_string()));
    assert_eq!(mac_verdict(None), Err("Invalid HMAC key".to_string()));
}

fn refused(r: Result<Authentic, whatsapp_bridge::http::WebReply>) -> String {
    match r {
        Ok(_) => panic!("let pass"),
        Err(reply) => {
            assert_eq!(reply.status, 401);
            reply.body
        }
    }
}

#[test]
fn a_signed_delivery_passes() {
    let s = signature();
    assert!(authenticate(None, Some("key"), false, Some(&s), BODY).is_ok());
    assert!(authenticate(Some("key"), Some("other"), false, Some(&s), BODY).is_ok());
    assert!(authenticate(Some(""), Some("key"), true, Some(&s), BODY).is_ok());
}

#[test]
fn a_delivery_without_a_valid_signature_is_refused() {
    let s = signature();
    assert_eq!(refused(authenticate(None, Some("key"), true, None, BODY)), "Missing signature");
    assert_eq!(refused(authenticate(None, Some("key"), true, Some(""), BODY)), "Missing signature");
    assert_eq!(
        refused(authenticate(Some("own"), Some("key"), true, Some(&s), BODY)),
        "Invalid signature"
    );
}

#[test]
fn without_a_secret_only_the_switch_lets_a_delivery_pass() {
    let s = signature();
    assert_eq!(refused(authenticate(None, None, false, Some(&s), BODY)), "Invalid signature");
    assert_eq!(refused(authenticate(None, Some(""), false, None, BODY)), "Invalid signature");
    assert!(authenticate(None, None, true, None, BODY).is_ok());
}

#[test]
fn secrets_and_flags() {
    assert_eq!(usable_secret(Some("")), None);
    assert_eq!(usable_secret(Some("x")), Some("x"));
    assert!(flag_is_on(Some("true")));
    assert!(flag_is_on(Some("1")));
    assert!(!flag_is_on(Some("TRUE")));
    assert!(!flag_is_on(Some("")));
    assert!(!flag_is_on(None));
    let ch = Json::object(vec![member("app_secret", Json::text("own"))]);
    assert_eq!(tenant_secret(&Ok(Some(ch))), Some("own"));
    assert_eq!(tenant_secret(&Ok(Some(Json::Null))), None);
    assert_eq!(tenant_secret(&Ok(None)), None);
    assert_eq!(tenant_secret(&Err(BridgeError::StoreNetwork("down".to_string()))), None);
}

fn query(mode: &str, token: &str, challenge: Option<&str>) -> VerifyQuery {
    VerifyQuery {
        mode: Some(mode.to_string()),
        verify_token: Some(token.to_string()),
        challenge: challenge.map(|c| c.to_string()),
    }
}

#[test]
fn the_handshake_is_answered_with_its_challenge() {
    let ch = Ok(Some(Json::object(vec![member("verify_token", Json::text("tok"))])));
    let r = verify(&ch, &query("subscribe", "tok", Some("42")));
    assert_eq!((r.status, r.body.as_str()), (200, "42"));
    let r = verify(&ch, &query("subscribe", "tok", None));
    assert_eq!((r.status, r.body.as_str()), (200, ""));
}

#[test]
fn a_bad_handshake_is_forbidden() {
    let ch = Ok(Some(Json::object(vec![member("verify_token", Json::text("tok"))])));
    for q in [
        query("unsubscribe", "tok", Some("42")),
        query("subscribe", "bad", Some("42")),
        VerifyQuery { mode: None, verify_token: None, challenge: None },
    ] {
        let r = verify(&ch, &q);
        assert_eq!((r.status, r.body.as_str()), (403, "Verification failed"));
    }
    for found in [Ok(None), Err(BridgeError::StoreNetwork("down".to_string()))] {
        let r = verify(&found, &query("subscribe", "tok", Some("42")));
        assert_eq!((r.status, r.body.as_str()), (403, "Unknown tenant"));
    }
}

#[test]
fn a_channel_without_a_token_expects_the_empty_one() {
    let r = verify(&Ok(Some(Json::Null)), &query("subscribe", "", Some("7")));
    assert_eq!((r.status, r.body.as_str()), (200, "7"));
}

fn message(from: &str, msg_type: &str, text: Option<&str>) -> WaMessage {
    WaMessage {
        from: from.to_string(),
        id: format!("id-{from}"),
        msg_type: msg_type.to_string(),
        text: text.map(|t| WaText { body: t.to_string() }),
    }
}

fn change(field: &str, number: &str, messages: Option<Vec<WaMessage>>) -> Change {
    Change {
        value: ChangeValue {
            metadata: Metadata { phone_number_id: number.to_string() },
            messages,
            statuses: None,
        },
        field: field.to_string(),
    }
}

fn payload(object: &str) -> WebhookPayload {
    WebhookPayload {
        object: object.to_string(),
        entry: vec![
            Entry {
                changes: vec![
                    change("messages", "n1", Some(vec![
                        message("a", "text", Some("one")),
                        message("b", "image", None),
                    ])),
                    change("account_update", "n2", Some(vec![message("x", "text", Some("no"))])),
                    change("messages", "n3", None),
                ],
            },
            Entry {
                changes: vec![change("messages", "n4", Some(vec![message("c", "text", Some("two"))]))],
            },
        ],
    }
}

#[test]
fn every_message_of_a_payload_is_delivered_in_order() {
    let d = process_payload(&payload("whatsapp_business_account"));
    let seen: Vec<(&str, &str)> = d
        .iter()
        .map(|d| (d.phone_number_id.as_str(), d.message.from.as_str()))
        .collect();
    assert_eq!(seen, vec![("n1", "a"), ("n1", "b"), ("n4", "c")]);
    assert_eq!(d[0].text(), Some("one"));
    assert_eq!(d[1].text(), None);
    assert_eq!(d[2].message.id, "id-c");
}

#[test]
fn a_payload_about_something_else_delivers_nothing() {
    assert!(process_payload(&payload("page")).is_empty());
}

#[test]
fn a_delivery_is_answered_at_once() {
    let passed = || match authenticate(None, None, true, None, BODY) {
        Ok(a) => a,
        Err(r) => panic!("{r:?}"),
    };
    match incoming(passed(), Some(payload("whatsapp_business_account"))) {
        Received::Accepted { reply, deliveries } => {
            assert_eq!((reply.status, reply.body.as_str()), (200, "OK"));
            assert_eq!(deliveries.len(), 3);
        }
        Received::Refused(r) => panic!("{r:?}"),
    }
    match incoming(passed(), None) {
        Received::Refused(r) => assert_eq!((r.status, r.body.as_str()), (400, "Invalid payload")),
        Received::Accepted { .. } => panic!("accepted"),
    }
}

fn delivery(m: WaMessage) -> Delivery {
    Delivery { phone_number_id: "n1".to_string(), message: m }
}

fn channel() -> ChannelInfo {
    ChannelInfo {
        tenant_id: "acme".to_string(),
        wa_token: "tok".to_string(),
        verify_token: "v".to_string(),
        system_prompt: "Be brief.".to_string(),
    }
}

#[test]
fn a_text_message_is_marked_read_and_begins_a_turn() {
    let wa = WhatsAppClient::new();
    let d = delivery(message("49123", "text", Some("hello")));
    let ch = channel();
    let h = d.handle_message(&wa, "tenant", &ch).unwrap();
    assert_eq!(h.read.url, "https://graph.facebook.com/v19.0/n1/messages");
    assert_eq!(h.read.bearer.as_deref(), Some("tok"));
    let body = h.read.body.unwrap();
    assert_eq!(body.text_at("messaging_product"), Some("whatsapp"));
    assert_eq!(body.text_at("status"), Some("read"));
    assert_eq!(body.text_at("message_id"), Some("id-49123"));
    assert_eq!(body.get("typing_indicator").unwrap().text_at("type"), Some("text"));
    assert_eq!(h.inbound.channel, CHANNEL);
    assert_eq!(h.inbound.channel, "whatsapp");
    assert_eq!(h.inbound.external_id, "49123");
    assert_eq!(h.inbound.tenant_id, "tenant");
    assert_eq!(h.inbound.system_prompt, "Be brief.");
    assert_eq!(h.inbound.text, "hello");
}

#[test]
fn what_is_no_text_message_is_ignored() {
    let wa = WhatsAppClient::new();
    let ch = channel();
    assert!(delivery(message("1", "image", Some("caption"))).handle_message(&wa, "t", &ch).is_none());
    assert!(delivery(message("1", "text", None)).handle_message(&wa, "t", &ch).is_none());
}

#[test]
fn a_message_without_a_channel_ends_quietly() {
    assert!(channel_or_end(Ok(Some(channel()))).is_ok());
    assert!(matches!(channel_or_end(Ok(None)), Err(Ok(()))));
    assert!(matches!(
        channel_or_end(Err(BridgeError::StoreNetwork("x".to_string()))),
        Err(Err(BridgeError::StoreNetwork(_)))
    ));
}

#[test]
fn the_reply_goes_to_the_customer() {
    let wa = WhatsAppClient::new();
    let d = delivery(message("49123", "text", Some("hello")));
    let r = d.replied(&wa, &channel(), Ok("hi there".to_string())).unwrap();
    let body = r.body.unwrap();
    assert_eq!(body.text_at("recipient_type"), Some("individual"));
    assert_eq!(body.text_at("to"), Some("49123"));
    assert_eq!(body.text_at("type"), Some("text"));
    assert_eq!(body.get("text").unwrap().text_at("body"), Some("hi there"));
    assert!(d.replied(&wa, &channel(), Err(BridgeError::CircuitOpen)).is_err());
}

#[test]
fn a_failure_record_shows_the_first_characters() {
    let store = StoreClient::new("http://s".to_string(), None);
    let long = "é".repeat(600);
    let d = delivery(message("49123", "text", Some(&long)));
    assert_eq!(d.preview(), "é".repeat(500));
    let r = d.failed(&store, "acme", &BridgeError::ClaudeApi { status: 500, body: "oops".to_string() });
    assert_eq!(r.url, "http://s/api/internal/whatsapp/failed-messages");
    let body = r.body.unwrap();
    assert_eq!(body.text_at("tenant_id"), Some("acme"));
    assert_eq!(body.text_at("customer_phone"), Some("49123"));
    assert_eq!(body.text_at("message_text"), Some("é".repeat(500).as_str()));
    assert_eq!(body.text_at("error_type"), Some("ClaudeApi"));
    assert_eq!(body.text_at("error_detail"), Some("ClaudeApi error (HTTP 500): oops"));
    assert_eq!(delivery(message("1", "image", None)).preview(), "");
}

#[test]
fn what_came_of_sending_to_whatsapp() {
    let wa = WhatsAppClient::new();
    let reply = |status: u16| {
        Ok(whatsapp_bridge::http::HttpReply {
            status,
            status_line: String::new(),
            text: "why".to_string(),
            parsed: Ok(()),
        })
    };
    assert!(wa.sent(reply(200)).is_ok());
    assert!(matches!(
        wa.sent(reply(401)),
        Err(BridgeError::WhatsAppApi { status: 401, body }) if body == "why"
    ));
    assert!(matches!(
        wa.sent::<()>(Err("down".to_string())),
        Err(BridgeError::WhatsAppNetwork(m)) if m == "down"
    ));
}
