//! The client of the WhatsApp Cloud API: requests to be sent, and what their replies
//! mean.

use vstd::prelude::*;

use crate::error::{BridgeError, BridgeResult, ErrorView};
use crate::http::{is_success, success, HttpReply, HttpRequest, Method, RequestView};
use crate::json::{
    member, member_views, members_are_found_by_name, Json, JsonView, Member,
};
use crate::text::concat3;

verus! {

/// Where the messages of a phone number are posted.
pub open spec fn messages_url(phone_number_id: Seq<char>) -> Seq<char> {
    "https://graph.facebook.com/v19.0/"@ + phone_number_id + "/messages"@
}

/// The body of a text message.
pub open spec fn text_body(to: Seq<char>, text: Seq<char>) -> JsonView {
    JsonView::Object(
        seq![
            ("messaging_product"@, JsonView::Text("whatsapp"@)),
            ("recipient_type"@, JsonView::Text("individual"@)),
            ("to"@, JsonView::Text(to)),
            ("type"@, JsonView::Text("text"@)),
            ("text"@, JsonView::Object(seq![("body"@, JsonView::Text(text))])),
        ],
    )
}

/// The body that marks a message as read and asks for a typing indicator, which is
/// shown until the reply comes.
pub open spec fn read_body(message_id: Seq<char>) -> JsonView {
    JsonView::Object(
        seq![
            ("messaging_product"@, JsonView::Text("whatsapp"@)),
            ("status"@, JsonView::Text("read"@)),
            ("message_id"@, JsonView::Text(message_id)),
            (
                "typing_indicator"@,
                JsonView::Object(seq![("type"@, JsonView::Text("text"@))]),
            ),
        ],
    )
}

/// A post to a phone number's messages.
pub open spec fn posted(
    phone_number_id: Seq<char>,
    wa_token: Seq<char>,
    body: JsonView,
) -> RequestView {
    RequestView::bare(Method::Post, messages_url(phone_number_id)).with_bearer(wa_token).with_body(
        body,
    )
}

/// What the outcome of sending a message means.
pub open spec fn send_outcome<T>(reply: Result<HttpReply<T>, String>) -> Result<(), ErrorView> {
    match reply {
        Err(e) => Err(ErrorView::WhatsAppNetwork(e@)),
        Ok(reply) => if is_success(reply.status) {
            Ok(())
        } else {
            Err(ErrorView::WhatsAppApi { status: reply.status, body: reply.text@ })
        },
    }
}

fn post(phone_number_id: &str, wa_token: &str, body: Json) -> (r: HttpRequest)
    ensures
        r@ == posted(phone_number_id@, wa_token@, body@),
{
    let url: String = concat3("https://graph.facebook.com/v19.0/", phone_number_id, "/messages");
    HttpRequest::bare(Method::Post, url).with_bearer(wa_token).with_body(body)
}

/// The client of the WhatsApp Cloud API. It keeps nothing: number and token come with
/// every call.
pub struct WhatsAppClient {}

impl WhatsAppClient {
    pub fn new() -> (r: WhatsAppClient)
        ensures
            r == (WhatsAppClient {  }),
    {
        WhatsAppClient {  }
    }

    /// The request that sends `text` to a customer.
    pub fn send_text(&self, phone_number_id: &str, wa_token: &str, to: &str, text: &str) -> (r:
        HttpRequest)
        ensures
            r@ == posted(phone_number_id@, wa_token@, text_body(to@, text@)),
    {
        let mut inner: Vec<Member> = Vec::new();
        inner.push(member("body", Json::text(text)));
        assert(member_views(inner@) =~= seq![("body"@, JsonView::Text(text@))]);
        let mut m: Vec<Member> = Vec::new();
        m.push(member("messaging_product", Json::text("whatsapp")));
        m.push(member("recipient_type", Json::text("individual")));
        m.push(member("to", Json::text(to)));
        m.push(member("type", Json::text("text")));
        m.push(member("text", Json::object(inner)));
        assert(member_views(m@) =~= text_body(to@, text@)->Object_0);
        post(phone_number_id, wa_token, Json::object(m))
    }

    /// What came of sending a message.
    pub fn sent<T>(&self, reply: Result<HttpReply<T>, String>) -> (r: BridgeResult<()>)
        ensures
            match r {
                Ok(()) => send_outcome(reply) is Ok,
                Err(e) => send_outcome(reply) == Err::<(), ErrorView>(e@),
            },
    {
        match reply {
            Err(e) => Err(BridgeError::WhatsAppNetwork(e)),
            Ok(reply) => if success(reply.status) {
                Ok(())
            } else {
                Err(BridgeError::WhatsAppApi { status: reply.status, body: reply.text })
            },
        }
    }

    /// The request that sends a "typing…" indicator, so that the customer knows that
    /// work is under way, and marks their message as read. Whatever comes of it is of no
    /// consequence.
    pub fn mark_read(&self, phone_number_id: &str, wa_token: &str, message_id: &str) -> (r:
        HttpRequest)
        ensures
            r@ == posted(phone_number_id@, wa_token@, read_body(message_id@)),
    {
        let mut typing: Vec<Member> = Vec::new();
        typing.push(member("type", Json::text("text")));
        assert(member_views(typing@) =~= seq![("type"@, JsonView::Text("text"@))]);
        let mut m: Vec<Member> = Vec::new();
        m.push(member("messaging_product", Json::text("whatsapp")));
        m.push(member("status", Json::text("read")));
        m.push(member("message_id", Json::text(message_id)));
        m.push(member("typing_indicator", Json::object(typing)));
        assert(member_views(m@) =~= read_body(message_id@)->Object_0);
        post(phone_number_id, wa_token, Json::object(m))
    }
}

// Laws.

/// A reply says its text to its recipient, from the phone number it is posted to and with
/// that number's token.
pub proof fn a_reply_goes_to_the_customer(
    phone_number_id: Seq<char>,
    wa_token: Seq<char>,
    to: Seq<char>,
    text: Seq<char>,
)
    ensures
        ({
            let r = posted(phone_number_id, wa_token, text_body(to, text));
            &&& r.method == Method::Post
            &&& r.url == "https://graph.facebook.com/v19.0/"@ + phone_number_id + "/messages"@
            &&& r.bearer == Some(wa_token)
            &&& r.body is Some
            &&& r.body->0.at("messaging_product"@) == JsonView::Text("whatsapp"@)
            &&& r.body->0.at("to"@) == JsonView::Text(to)
            &&& r.body->0.at("type"@) == JsonView::Text("text"@)
            &&& r.body->0.at("text"@).at("body"@) == JsonView::Text(text)
        }),
{
    reveal_strlit("messaging_product");
    reveal_strlit("recipient_type");
    reveal_strlit("to");
    reveal_strlit("type");
    reveal_strlit("text");
    reveal_strlit("body");
    assert("messaging_product"@.len() == 17 && "recipient_type"@.len() == 14 && "to"@.len() == 2
        && "type"@.len() == 4 && "text"@.len() == 4);
    assert("type"@[1] != "text"@[1]);
    let m = text_body(to, text)->Object_0;
    members_are_found_by_name(m, "messaging_product"@, 0);
    members_are_found_by_name(m, "to"@, 2);
    members_are_found_by_name(m, "type"@, 3);
    members_are_found_by_name(m, "text"@, 4);
    members_are_found_by_name(m[4].1->Object_0, "body"@, 0);
}

/// Marking a message as read names the message and shows that work is under way.
pub proof fn a_read_mark_names_its_message(message_id: Seq<char>)
    ensures
        read_body(message_id).at("messaging_product"@) == JsonView::Text("whatsapp"@),
        read_body(message_id).at("status"@) == JsonView::Text("read"@),
        read_body(message_id).at("message_id"@) == JsonView::Text(message_id),
        read_body(message_id).at("typing_indicator"@).at("type"@) == JsonView::Text("text"@),
{
    reveal_strlit("messaging_product");
    reveal_strlit("status");
    reveal_strlit("message_id");
    reveal_strlit("typing_indicator");
    reveal_strlit("type");
    assert("messaging_product"@.len() == 17 && "status"@.len() == 6 && "message_id"@.len() == 10
        && "typing_indicator"@.len() == 16);
    let m = read_body(message_id)->Object_0;
    members_are_found_by_name(m, "messaging_product"@, 0);
    members_are_found_by_name(m, "status"@, 1);
    members_are_found_by_name(m, "message_id"@, 2);
    members_are_found_by_name(m, "typing_indicator"@, 3);
    members_are_found_by_name(m[3].1->Object_0, "type"@, 0);
}

/// A message was sent exactly if WhatsApp answered with one of the two hundreds; any
/// other answer is told with its status and its text.
pub proof fn only_a_two_hundred_means_sent(reply: HttpReply<()>)
    ensures
        send_outcome(Ok::<HttpReply<()>, String>(reply)) == (if reply.status / 100 == 2 {
            Ok::<(), ErrorView>(())
        } else {
            Err(ErrorView::WhatsAppApi { status: reply.status, body: reply.text@ })
        }),
{
}

} // verus!
