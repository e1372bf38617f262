use whatsapp_bridge::error::BridgeError;
use whatsapp_bridge::http::{success, Method, HttpRequest};
use whatsapp_bridge::json::{member, Json};
use whatsapp_bridge::text::{
    concat3, decimal, join, parse_decimal, signed_decimal, strip_prefix, trim,
};

fn all() -> Vec<(BridgeError, &'static str, &'static str, &'static str, bool)> {
    let s = |t: &str| t.to_string();
    vec![
        (BridgeError::ClaudeApi { status: 500, body: s("b") }, "ClaudeApi error (HTTP 500): b", "ClaudeApi", "Other", true),
        (BridgeError::ClaudeApi { status: 404, body: s("b") }, "ClaudeApi error (HTTP 404): b", "ClaudeApi", "Other", false),
        (BridgeError::ClaudeNetwork(s("e")), "ClaudeApi unreachable: e", "ClaudeNetwork", "Other", true),
        (BridgeError::ClaudeParse(s("e")), "ClaudeApi response parse error: e", "ClaudeParse", "Other", false),
        (BridgeError::ToolLoopExhausted { max_rounds: 10 }, "ClaudeApi tool loop exceeded 10 rounds", "ToolLoopExhausted", "ToolLoopExhausted", false),
        (BridgeError::Store { status: 503, message: s("m") }, "Store returned HTTP 503: m", "Store", "Store", false),
        (BridgeError::StoreNetwork(s("e")), "Store unreachable: e", "StoreNetwork", "Store", false),
        (BridgeError::GatewayNetwork(s("e")), "Gateway unreachable: e", "GatewayNetwork", "Gateway", false),
        (BridgeError::Gateway(s("e")), "Gateway error: e", "Gateway", "Gateway", false),
        (BridgeError::WhatsAppApi { status: 400, body: s("b") }, "WhatsApp API error (HTTP 400): b", "WhatsAppApi", "Other", false),
        (BridgeError::WhatsAppNetwork(s("e")), "WhatsApp API unreachable: e", "WhatsAppNetwork", "Other", false),
        (BridgeError::TelegramApi { status: 400, body: s("b") }, "Telegram API error (HTTP 400): b", "TelegramApi", "Other", false),
        (BridgeError::TelegramNetwork(s("e")), "Telegram API unreachable: e", "TelegramNetwork", "Other", false),
        (BridgeError::ChannelNotFound(s("9")), "No channel config found for phone_number_id=9", "ChannelNotFound", "Other", false),
        (BridgeError::CircuitOpen, "ClaudeApi circuit breaker is open — service temporarily unavailable", "CircuitOpen", "CircuitOpen", false),
        (BridgeError::Other(s("e")), "e", "Other", "Other", false),
    ]
}

#[test]
fn every_error_has_its_words_and_kinds() {
    for (e, message, kind, broad, retryable) in all() {
        assert_eq!(e.message(), message);
        assert_eq!(e.kind(), kind);
        assert_eq!(e.broad_kind(), broad);
        assert_eq!(e.retryable(), retryable, "{message}");
    }
}

#[test]
fn numbers_in_decimal() {
    assert_eq!(decimal(0), "0");
    assert_eq!(decimal(u64::MAX), "18446744073709551615");
    assert_eq!(signed_decimal(i64::MIN), "-9223372036854775808");
    assert_eq!(signed_decimal(-1), "-1");
    assert_eq!(signed_decimal(120), "120");
}

#[test]
fn numbers_out_of_text() {
    assert_eq!(parse_decimal("007", 10), Some(7));
    assert_eq!(parse_decimal("+7", 10), Some(7));
    assert_eq!(parse_decimal("11", 10), None);
    assert_eq!(parse_decimal("", 10), None);
    assert_eq!(parse_decimal("+", 10), None);
    assert_eq!(parse_decimal("-0", 10), None);
    assert_eq!(parse_decimal(" 7", 10), None);
    assert_eq!(parse_decimal("18446744073709551615", u64::MAX), Some(u64::MAX));
    assert_eq!(parse_decimal("18446744073709551616", u64::MAX), None);
}

#[test]
fn pieces_of_text() {
    assert_eq!(trim("\u{3000} a b \u{2028}"), "a b");
    assert_eq!(trim("\u{200b}x"), "\u{200b}x");
    assert_eq!(strip_prefix("/start x", "/start"), Some(" x"));
    assert_eq!(strip_prefix("/sta", "/start"), None);
    assert_eq!(join(&vec!["a".to_string(), "b".to_string()], ", "), "a, b");
    assert_eq!(join(&Vec::new(), ", "), "");
    assert_eq!(concat3("a", "ü", "c"), "aüc");
}

#[test]
fn white_space_is_what_the_standard_library_trims() {
    for n in 0..0x11_0000u32 {
        if let Some(c) = char::from_u32(n) {
            assert_eq!(whatsapp_bridge::text::white_space(c), c.is_whitespace(), "{n:x}");
        }
    }
}

#[test]
fn members_of_objects() {
    let j = Json::object(vec![
        member("a", Json::Bool(true)),
        member("a", Json::Bool(false)),
        member("n", Json::Number("5".to_string())),
    ]);
    assert_eq!(j.get("a").unwrap().as_bool(), Some(true));
    assert!(j.get("b").is_none());
    assert!(Json::Null.get("a").is_none());
    assert_eq!(j.get("n").unwrap().as_u64(), Some(5));
    assert_eq!(j.text_at("n"), None);
    assert_eq!(format!("{:?}", j.duplicate()), format!("{j:?}"));
}

#[test]
fn statuses_that_count_as_success() {
    for (status, expected) in [(199, false), (200, true), (299, true), (300, false)] {
        assert_eq!(success(status), expected);
    }
}

#[test]
fn a_bare_request_is_bare() {
    let r = HttpRequest::bare(Method::Delete, "u".to_string());
    assert_eq!(r.method, Method::Delete);
    assert!(r.headers.is_empty() && r.bearer.is_none() && r.body.is_none() && r.timeout_s.is_none());
}
