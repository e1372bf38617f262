use whatsapp_bridge::error::{BridgeError, BridgeResult};
use whatsapp_bridge::http::HttpReply;
use whatsapp_bridge::json::Json;
use whatsapp_bridge::models::MessagingChannel;
use whatsapp_bridge::store_client::StoreClient;
use whatsapp_bridge::telegram_api::{split_message, TelegramClient, MAX_MESSAGE_CHARS};
use whatsapp_bridge::telegram_webhook::{
    incoming, unwrap_start_payload, Begun, Chat, Message, Update, User, CHANNEL,
};

#[test]
fn short_messages_are_sent_whole() {
    assert_eq!(split_message("hello"), vec!["hello".to_string()]);
}

#[test]
fn long_messages_split_on_paragraphs_under_the_cap() {
    let para = "x".repeat(3000);
    let text = format!("{para}\n\n{para}");
    let parts = split_message(&text);
    assert_eq!(parts.len(), 2);
    assert!(parts.iter().all(|p| p.chars().count() <= MAX_MESSAGE_CHARS));
}

#[test]
fn a_deep_link_start_yields_its_payload() {
    assert_eq!(unwrap_start_payload("/start ABC234"), "ABC234");
    assert_eq!(unwrap_start_payload("  /start   kl9x2p "), "kl9x2p");
}

#[test]
fn a_bare_start_and_ordinary_text_pass_through() {
    assert_eq!(unwrap_start_payload("/start"), "/start");
    assert_eq!(unwrap_start_payload("list my tasks"), "list my tasks");
}

#[test]
fn white_space_alone_is_trimmed_away() {
    assert_eq!(unwrap_start_payload(" \u{a0}\t "), "");
    assert_eq!(unwrap_start_payload(" /start \n"), "/start");
    assert_eq!(unwrap_start_payload("/startnow"), "now");
}

#[test]
fn the_parts_of_a_long_reply_join_to_it() {
    let a = "a".repeat(2000);
    let b = "b".repeat(2000);
    let c = "ü".repeat(4096);
    let text = format!("{a}\n\n{b}\n\n{c}\n\nend");
    let parts = split_message(&text);
    assert_eq!(parts, vec![format!("{a}\n\n{b}"), c.clone(), "end".to_string()]);
    assert_eq!(parts.join("\n\n"), text);
}

#[test]
fn a_paragraph_over_the_cap_is_split_rather_than_dropped() {
    let text = "x".repeat(5000);
    let parts = split_message(&text);
    assert_eq!(parts, vec!["x".repeat(4096), "x".repeat(904)]);
    assert_eq!(parts.concat(), text);
    let twice = "y".repeat(8192);
    assert_eq!(split_message(&twice), vec!["y".repeat(4096), "y".repeat(4096)]);
}

#[test]
fn the_rest_of_a_long_paragraph_is_filled_up() {
    let text = format!("intro\n\n{}\n\nend", "x".repeat(5000));
    assert_eq!(
        split_message(&text),
        vec![
            "intro".to_string(),
            "x".repeat(4096),
            format!("{}\n\nend", "x".repeat(904)),
        ]
    );
}

#[test]
fn a_reply_at_the_cap_is_not_split() {
    let text = format!("{}\n\n{}", "x".repeat(2000), "y".repeat(2094));
    assert_eq!(split_message(&text), vec![text.clone()]);
    let longer = format!("{text}z");
    assert_eq!(split_message(&longer).len(), 2);
}

#[test]
fn an_empty_reply_is_one_empty_message() {
    assert_eq!(split_message(""), vec!["".to_string()]);
}

#[test]
fn each_part_is_sent_to_the_chat() {
    let client = TelegramClient::new();
    let text = format!("{}\n\n{}", "x".repeat(3000), "y".repeat(3000));
    let requests = client.send_text("12:ab", -100200, &text);
    assert_eq!(requests.len(), 2);
    for (r, letter) in requests.iter().zip(["x", "y"]) {
        assert_eq!(r.url, "https://api.telegram.org/bot12:ab/sendMessage");
        let body = r.body.as_ref().unwrap();
        assert!(matches!(body.get("chat_id"), Some(Json::Number(n)) if n.as_str() == "-100200"));
        assert_eq!(body.text_at("text"), Some(letter.repeat(3000).as_str()));
        assert!(r.bearer.is_none());
    }
}

fn reply(status: u16, text: &str) -> Result<HttpReply<()>, String> {
    Ok(HttpReply {
        status,
        status_line: String::new(),
        text: text.to_string(),
        parsed: Ok(()),
    })
}

#[test]
fn what_came_of_sending_to_telegram() {
    let client = TelegramClient::new();
    assert!(client.sent(reply(299, "")).is_ok());
    match client.sent(reply(300, "moved")) {
        Err(BridgeError::TelegramApi { status: 300, body }) => assert_eq!(body, "moved"),
        other => panic!("{other:?}"),
    }
    match client.sent::<()>(Err("no route".to_string())) {
        Err(e) => assert_eq!(e.message(), "Telegram API unreachable: no route"),
        Ok(()) => panic!("sent"),
    }
}

fn channel() -> MessagingChannel {
    MessagingChannel {
        tenant_id: "acme".to_string(),
        credential: "12:ab".to_string(),
        webhook_secret: "s3cret".to_string(),
        system_prompt: "Be brief.".to_string(),
    }
}

fn update(text: Option<&str>, from: Option<i64>) -> Update {
    Update {
        message: Some(Message {
            text: text.map(|t| t.to_string()),
            from: from.map(|id| User { id }),
            chat: Chat { id: 77 },
        }),
    }
}

fn begun(
    found: BridgeResult<Option<MessagingChannel>>,
    presented: Option<&str>,
    update: Option<Update>,
) -> Option<Begun> {
    let r = incoming(found, presented, update);
    assert_eq!((r.reply.status, r.reply.body.as_str()), (200, ""));
    r.begun
}

#[test]
fn a_message_from_telegram_begins_a_turn() {
    let u = update(Some(" /start abc234"), Some(-5));
    let b = begun(Ok(Some(channel())), Some("s3cret"), Some(u)).unwrap();
    assert_eq!(b.chatter.chat_id(), 77);
    let m = b.chatter.inbound(&b.channel);
    assert_eq!(m.channel, CHANNEL);
    assert_eq!(m.channel, "telegram");
    assert_eq!(m.external_id, "-5");
    assert_eq!(m.tenant_id, "acme");
    assert_eq!(m.system_prompt, "Be brief.");
    assert_eq!(m.text, "abc234");
}

#[test]
fn what_is_no_conversation_is_answered_and_ignored() {
    let found = || Ok(Some(channel()));
    assert!(begun(found(), Some("s3cret"), Some(update(None, Some(5)))).is_none());
    assert!(begun(found(), Some("s3cret"), Some(update(Some("hi"), None))).is_none());
    assert!(begun(found(), Some("s3cret"), Some(Update { message: None })).is_none());
    assert!(begun(found(), Some("s3cret"), None).is_none());
}

#[test]
fn an_unknown_bot_is_answered_and_ignored() {
    let u = || Some(update(Some("hi"), Some(5)));
    assert!(begun(Ok(None), Some("s3cret"), u()).is_none());
    assert!(begun(Err(BridgeError::StoreNetwork("down".to_string())), None, u()).is_none());
}

#[test]
fn a_wrong_secret_is_answered_and_ignored() {
    let u = || Some(update(Some("hi"), Some(5)));
    assert!(begun(Ok(Some(channel())), Some("other"), u()).is_none());
    assert!(begun(Ok(Some(channel())), None, u()).is_none());
    let open = MessagingChannel { webhook_secret: String::new(), ..channel() };
    assert!(begun(Ok(Some(open)), None, u()).is_some());
}

#[test]
fn a_failed_turn_is_recorded_and_answered() {
    let store = StoreClient::new("http://store".to_string(), Some("k".to_string()));
    let u = update(Some("hi"), Some(5));
    let Begun { channel: ch, chatter } =
        begun(Ok(Some(channel())), Some("s3cret"), Some(u)).unwrap();

    let fine = chatter.answer(&store, &ch, Ok("hello".to_string()));
    assert_eq!(fine.reply, "hello");
    assert!(fine.report.is_none());

    let failed = chatter.answer(&store, &ch, Err(BridgeError::GatewayNetwork("down".to_string())));
    assert_eq!(failed.reply, "Something went wrong on my side. Please try again in a moment.");
    let body = failed.report.unwrap().body.unwrap();
    assert_eq!(body.text_at("tenant_id"), Some("acme"));
    assert_eq!(body.text_at("customer_phone"), Some("5"));
    assert_eq!(body.text_at("message_text"), Some("hi"));
    assert_eq!(body.text_at("error_type"), Some("Gateway"));
    assert_eq!(body.text_at("error_detail"), Some("Gateway unreachable: down"));
}
