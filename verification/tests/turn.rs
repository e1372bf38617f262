use whatsapp_bridge::circuit_breaker::CircuitBreaker;
use whatsapp_bridge::claude::ClaudeClient;
use whatsapp_bridge::error::BridgeError;
use whatsapp_bridge::http::Method;
use whatsapp_bridge::mcp_client::McpClient;
use whatsapp_bridge::models::ResolvedIdentity;
use whatsapp_bridge::rate_limit::{RateLimitDenied, RateLimiter};
use whatsapp_bridge::store_client::StoreClient;
use whatsapp_bridge::turn::{
    after_limits, answered, code_or_none, looks_like_link_code, redeemed, run_turn, saved,
    sender_key, to_upper_case, AnswerStep, IdentityStep, Inbound, Turn, TurnStep, LINK_INSTRUCTIONS,
};

#[test]
fn a_six_character_code_is_recognised_whatever_the_case_or_spacing() {
    assert_eq!(looks_like_link_code("abc234"), Some("ABC234".into()));
    assert_eq!(looks_like_link_code("  KLMN78 "), Some("KLMN78".into()));
}

#[test]
fn ordinary_messages_are_not_mistaken_for_codes() {
    for text in ["hello", "ABCDE", "ABCDEFG", "AB0123", "list my tasks", "OI1LO0"] {
        assert_eq!(looks_like_link_code(text), None, "{text:?} should not be a code");
    }
}

#[test]
fn letters_outside_the_alphabet_make_no_code() {
    for text in ["abcdeſ", "ßABCD", "abcdß", "abcdﬀ", "äbcdef", "abcdéf", "ａbcdef"] {
        assert_eq!(looks_like_link_code(text), None, "{text:?} should not be a code");
    }
}

#[test]
fn only_the_letters_a_to_z_change_case() {
    assert_eq!(to_upper_case("azAZ09_ß{`é"), "AZAZ09_ß{`é");
    assert_eq!(to_upper_case(""), "");
}

#[test]
fn a_code_is_six_characters_of_the_alphabet() {
    assert_eq!(code_or_none("ZYX987".into()), Some("ZYX987".into()));
    assert_eq!(code_or_none("zyx987".into()), None);
    assert_eq!(code_or_none("ZYX98I".into()), None);
    assert_eq!(code_or_none("".into()), None);
}

#[test]
fn senders_of_two_channels_have_two_keys() {
    assert_eq!(sender_key("telegram", "5"), "telegram:5");
    assert_ne!(sender_key("telegram", "5"), sender_key("whatsapp", "5"));
}

fn inbound<'a>(text: &'a str, system_prompt: &'a str) -> Inbound<'a> {
    Inbound { channel: "telegram", external_id: "5", tenant_id: "acme", system_prompt, text }
}

fn begun<'a>(text: &'a str, system_prompt: &'a str) -> Turn<'a> {
    match after_limits(Ok(()), inbound(text, system_prompt)) {
        TurnStep::Identify(turn) => turn,
        TurnStep::Over(reply) => panic!("{reply}"),
    }
}

fn store() -> StoreClient {
    StoreClient::new("http://s".into(), Some("inner".into()))
}

#[test]
fn the_sender_is_looked_up() {
    let r = begun("hi", "").identity_lookup(&store());
    assert_eq!(r.method, Method::Get);
    assert_eq!(r.url, "http://s/api/internal/messaging/identity/telegram/acme/5");
    assert_eq!(r.headers[0].value, "inner");
}

#[test]
fn a_turn_begins_where_the_limits_let_it() {
    let mut limiter = RateLimiter::new(Some("1"), None);
    assert!(matches!(run_turn(&mut limiter, inbound("hi", "")), TurnStep::Identify(_)));
    match run_turn(&mut limiter, inbound("hi", "")) {
        TurnStep::Over(reply) => assert_eq!(
            reply,
            "You're sending messages too quickly. Please wait a moment and try again."
        ),
        TurnStep::Identify(_) => panic!("let pass"),
    }
}

#[test]
fn both_limits_end_a_turn_alike() {
    for denied in [RateLimitDenied::Phone, RateLimitDenied::Tenant] {
        assert!(matches!(after_limits(Err(denied), inbound("hi", "")), TurnStep::Over(_)));
    }
}

#[test]
fn someone_unlinked_is_told_how_to_link() {
    match begun("hello", "").identified(Ok(None)) {
        IdentityStep::Over(Ok(reply)) => {
            assert_eq!(reply, LINK_INSTRUCTIONS);
            assert_eq!(
                reply,
                "This account isn't linked yet.\n\nSign in at the dashboard, open Settings → Linked messaging, and send me the 6-character code it shows you. After that, everything you ask here runs as you."
            );
        }
        _ => panic!("not told"),
    }
}

#[test]
fn someone_unlinked_may_redeem_a_code() {
    match begun(" abc234 ", "").identified(Ok(None)) {
        IdentityStep::Redeem(redemption) => {
            let r = redemption.request(&store());
            assert_eq!(r.method, Method::Post);
            assert_eq!(r.url, "http://s/api/internal/messaging/link");
            let body = r.body.unwrap();
            assert_eq!(body.text_at("channel"), Some("telegram"));
            assert_eq!(body.text_at("external_id"), Some("5"));
            assert_eq!(body.text_at("tenant_id"), Some("acme"));
            assert_eq!(body.text_at("code"), Some("ABC234"));
        }
        _ => panic!("no code"),
    }
}

#[test]
fn a_failed_lookup_ends_the_turn() {
    match begun("abc234", "").identified(Err(BridgeError::StoreNetwork("down".into()))) {
        IdentityStep::Over(Err(BridgeError::StoreNetwork(m))) => assert_eq!(m, "down"),
        _ => panic!("went on"),
    }
}

#[test]
fn what_came_of_redeeming_a_code() {
    match redeemed(Ok("ann@example.com".into())) {
        Ok(reply) => assert_eq!(
            reply,
            "Linked. You are now ann@example.com here — anything you ask runs as you."
        ),
        Err(e) => panic!("{e:?}"),
    }
    match redeemed(Err(BridgeError::Store { status: 410, message: "That code expired.".into() })) {
        Ok(reply) => assert_eq!(reply, "That code expired."),
        Err(e) => panic!("{e:?}"),
    }
    assert!(matches!(redeemed(Err(BridgeError::CircuitOpen)), Err(BridgeError::CircuitOpen)));
}

fn client() -> ClaudeClient {
    ClaudeClient::new("key".into(), "m".into(), 100, CircuitBreaker::with_limits(5, 30))
}

#[test]
fn a_linked_person_acts_with_their_own_key() {
    let identity = ResolvedIdentity { user_email: "ann@example.com".into(), api_key: "ann".into() };
    let linked = match begun("abc234", "Be brief.").identified(Ok(Some(identity))) {
        IdentityStep::Linked(linked) => linked,
        _ => panic!("not linked"),
    };
    let session = "http://s/api/internal/whatsapp/session/acme/telegram%3A5";
    let load = linked.session_load(&store());
    assert_eq!((load.method, load.url.as_str()), (Method::Get, session));
    let save = linked.session_save(&store(), &Vec::new());
    assert_eq!((save.method, save.url.as_str()), (Method::Put, session));
    let tools = linked.tool_list(&mut McpClient::new("http://gw"));
    assert_eq!(tools.bearer.as_deref(), Some("ann"));
    assert_eq!(tools.body.unwrap().text_at("method"), Some("tools/list"));
    assert_eq!(linked.user_email(), "ann@example.com");
    let claude = client();
    let convo = linked.converse(&claude, Vec::new(), &Vec::new());
    let ask = claude.request(&convo);
    assert_eq!(ask.system, "Be brief.");
    assert_eq!(ask.messages.len(), 1);
    assert_eq!(ask.messages[0].role, "user");
    assert_eq!(ask.messages[0].content.as_text(), Some("abc234"));
}

#[test]
fn a_blank_prompt_is_replaced() {
    let identity = ResolvedIdentity { user_email: "a".into(), api_key: "k".into() };
    let linked = match begun("hi", " \n ").identified(Ok(Some(identity))) {
        IdentityStep::Linked(linked) => linked,
        _ => panic!("not linked"),
    };
    let claude = client();
    let convo = linked.converse(&claude, Vec::new(), &Vec::new());
    assert_eq!(
        claude.request(&convo).system,
        "You are a helpful assistant. Use the available tools to answer the user's request."
    );
}

#[test]
fn what_follows_from_the_models_answer() {
    match answered(Ok(("done".into(), Vec::new()))) {
        AnswerStep::Save { reply, history } => {
            assert_eq!(reply, "done");
            assert!(history.is_empty());
        }
        AnswerStep::Over(_) => panic!("over"),
    }
    match answered(Err(BridgeError::CircuitOpen)) {
        AnswerStep::Over(Ok(reply)) => assert_eq!(
            reply,
            "I'm temporarily unavailable. Please try again in a few moments."
        ),
        _ => panic!("not told"),
    }
    assert!(matches!(
        answered(Err(BridgeError::ToolLoopExhausted { max_rounds: 10 })),
        AnswerStep::Over(Err(BridgeError::ToolLoopExhausted { max_rounds: 10 }))
    ));
}

#[test]
fn a_reply_is_given_once_the_history_is_saved() {
    assert!(matches!(saved("ok".into(), Ok(())), Ok(r) if r == "ok"));
    assert!(saved("ok".into(), Err(BridgeError::StoreNetwork("x".into()))).is_err());
}
