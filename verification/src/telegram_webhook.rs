//! The Telegram adapter. Telegram posts every update to a URL that carries the bot's
//! id, which is public; the secret that comes with it is what proves that the caller
//! is Telegram.

use vstd::prelude::*;

use crate::error::{BridgeError, BridgeResult};
use crate::http::{opt_request_view, HttpRequest, Method, RequestView, WebReply};
use crate::json::JsonView;
use crate::models::MessagingChannel;
use crate::store_client::{a_failure_record_is_complete, StoreClient, StoreView};
use crate::text::{
    is_white_space, opt_str_view, same_text, signed_decimal, signed_decimal_of, starts_with,
    strip_prefix, trim, trimmed,
};
use crate::turn::{
    lemma_trimmed_padding, sender_key_of, sender_keys_are_distinct, Inbound, InboundView,
};
use crate::webhook;

verus! {

/// The name of the channel.
pub const CHANNEL: &'static str = "telegram";

pub const FAILURE_REPLY: &'static str =
    "Something went wrong on my side. Please try again in a moment.";

#[derive(Debug)]
pub struct Update {
    pub message: Option<Message>,
}

#[derive(Debug)]
pub struct Message {
    pub text: Option<String>,
    pub from: Option<User>,
    pub chat: Chat,
}

#[derive(Debug)]
pub struct User {
    pub id: i64,
}

#[derive(Debug)]
pub struct Chat {
    pub id: i64,
}

/// A text without the command that a deep link puts in front of it.
pub open spec fn without_start(text: Seq<char>) -> Seq<char> {
    let t = trimmed(text);
    let payload = trimmed(t.skip("/start"@.len() as int));
    if starts_with(t, "/start"@) && payload.len() > 0 {
        payload
    } else {
        t
    }
}

/// Makes the payload out of `/start <payload>`, which is what a deep link produces. A
/// bare `/start` stays, as does any other text.
pub fn unwrap_start_payload(text: &str) -> (r: &str)
    ensures
        r@ == without_start(text@),
{
    let t: &str = trim(text);
    match strip_prefix(t, "/start") {
        Some(rest) => {
            let payload: &str = trim(rest);
            if payload.unicode_len() > 0 {
                payload
            } else {
                t
            }
        },
        None => t,
    }
}

/// A message of a conversation.
pub struct Chatter {
    text: String,
    external_id: String,
    chat_id: i64,
}

pub struct ChatterView {
    pub text: Seq<char>,
    /// The sender, in decimal.
    pub external_id: Seq<char>,
    pub chat_id: i64,
}

impl View for Chatter {
    type V = ChatterView;

    closed spec fn view(&self) -> ChatterView {
        ChatterView {
            text: self.text@,
            external_id: self.external_id@,
            chat_id: self.chat_id,
        }
    }
}

/// The message that an update brings: text that someone wrote. Edits, stickers and
/// joins are no conversation.
pub open spec fn chatter_in(update: Update) -> Option<ChatterView> {
    match update.message {
        Some(Message { text: Some(text), from: Some(from), chat }) => Some(
            ChatterView {
                text: without_start(text@),
                external_id: signed_decimal_of(from.id as int),
                chat_id: chat.id,
            },
        ),
        _ => None,
    }
}

/// What was presented is the secret of the channel; a missing header counts as empty.
pub open spec fn is_telegram(channel: MessagingChannel, presented: Option<Seq<char>>) -> bool {
    channel.webhook_secret@ == (match presented {
        Some(s) => s,
        None => Seq::empty(),
    })
}

/// The message that an update from Telegram brings to a bot. There is none where the
/// bot is not known or could not be looked up, where the update cannot be read or does
/// not come from Telegram, and where it is no conversation.
pub open spec fn chatter_for(
    found: BridgeResult<Option<MessagingChannel>>,
    presented: Option<Seq<char>>,
    update: Option<Update>,
) -> Option<ChatterView> {
    match (found, update) {
        (Ok(Some(channel)), Some(u)) => if is_telegram(channel, presented) {
            chatter_in(u)
        } else {
            None
        },
        _ => None,
    }
}

/// A message that begins a turn, with the channel that it came on.
pub struct Begun {
    pub channel: MessagingChannel,
    pub chatter: Chatter,
}

/// What is to be done with an update.
pub struct Incoming {
    /// What Telegram is answered, whatever comes of the rest.
    pub reply: WebReply,
    pub begun: Option<Begun>,
}

/// What is to be done with an update for the bot that was looked up. The answer is 200
/// and empty for everything, also for what is ignored and for what fails later:
/// anything else makes Telegram send the same update again and again.
pub fn incoming(
    found: BridgeResult<Option<MessagingChannel>>,
    presented: Option<&str>,
    update: Option<Update>,
) -> (r: Incoming)
    ensures
        r.reply.is(200, Seq::empty()),
        match r.begun {
            Some(b) => found == Ok::<Option<MessagingChannel>, BridgeError>(Some(b.channel))
                && chatter_for(found, opt_str_view(presented), update) == Some(b.chatter@),
            None => chatter_for(found, opt_str_view(presented), update) is None,
        },
{
    proof {
        reveal_strlit("");
        assert(""@ =~= Seq::<char>::empty());
    }
    let reply = WebReply::new(200, "");
    let presented: &str = match presented {
        Some(s) => s,
        None => "",
    };
    let channel: MessagingChannel = match found {
        Ok(Some(c)) => c,
        _ => return Incoming { reply, begun: None },
    };
    if !same_text(presented, channel.webhook_secret.as_str()) {
        return Incoming { reply, begun: None };
    }
    match update {
        Some(Update { message: Some(Message { text: Some(text), from: Some(from), chat }) }) => {
            let chatter = Chatter {
                text: unwrap_start_payload(text.as_str()).to_owned(),
                external_id: signed_decimal(from.id),
                chat_id: chat.id,
            };
            Incoming { reply, begun: Some(Begun { channel, chatter }) }
        },
        _ => Incoming { reply, begun: None },
    }
}

/// What is sent back, and the record of the failure where there was one.
pub struct Answer {
    pub reply: String,
    pub report: Option<HttpRequest>,
}

impl ChatterView {
    /// The turn that a message begins.
    pub open spec fn inbound(self, channel: MessagingChannel) -> InboundView {
        InboundView {
            channel: CHANNEL@,
            external_id: self.external_id,
            tenant_id: channel.tenant_id@,
            system_prompt: channel.system_prompt@,
            text: self.text,
        }
    }

    /// The record of a turn that failed.
    pub open spec fn report(
        self,
        store: StoreView,
        channel: MessagingChannel,
        e: BridgeError,
    ) -> RequestView {
        store.failure_report(
            channel.tenant_id@,
            self.external_id,
            self.text,
            e@.broad_kind(),
            e@.message(),
        )
    }
}

impl Chatter {
    pub fn chat_id(&self) -> (r: i64)
        ensures
            r == self@.chat_id,
    {
        self.chat_id
    }

    /// The turn that this message begins.
    pub fn inbound<'a>(&'a self, channel: &'a MessagingChannel) -> (r: Inbound<'a>)
        ensures
            r@ == self@.inbound(*channel),
    {
        Inbound {
            channel: CHANNEL,
            external_id: self.external_id.as_str(),
            tenant_id: channel.tenant_id.as_str(),
            system_prompt: channel.system_prompt.as_str(),
            text: self.text.as_str(),
        }
    }

    /// What is sent back. A turn that failed is recorded, and the sender is told that
    /// something went wrong.
    pub fn answer(
        &self,
        store: &StoreClient,
        channel: &MessagingChannel,
        turn: BridgeResult<String>,
    ) -> (r: Answer)
        ensures
            match turn {
                Ok(reply) => r.reply == reply && r.report is None,
                Err(e) => r.reply@ == FAILURE_REPLY@ && opt_request_view(r.report) == Some(
                    self@.report(store@, *channel, e),
                ),
            },
    {
        match turn {
            Ok(reply) => Answer { reply, report: None },
            Err(e) => {
                let report: HttpRequest = store.log_failed_message(
                    channel.tenant_id.as_str(),
                    self.external_id.as_str(),
                    self.text.as_str(),
                    e.broad_kind(),
                    e.message().as_str(),
                );
                Answer { reply: FAILURE_REPLY.to_owned(), report: Some(report) }
            },
        }
    }
}

// Laws.

/// A deep link yields its payload, whatever white space stands around it.
pub proof fn a_deep_link_yields_its_payload(
    before: Seq<char>,
    gap: Seq<char>,
    payload: Seq<char>,
    after: Seq<char>,
)
    requires
        payload.len() > 0,
        !is_white_space(payload.first()),
        !is_white_space(payload.last()),
        forall|i: int| 0 <= i < before.len() ==> is_white_space(#[trigger] before[i]),
        forall|i: int| 0 <= i < gap.len() ==> is_white_space(#[trigger] gap[i]),
        forall|i: int| 0 <= i < after.len() ==> is_white_space(#[trigger] after[i]),
    ensures
        without_start(before + ("/start"@ + gap + payload) + after) == payload,
{
    reveal_strlit("/start");
    let command = "/start"@ + gap + payload;
    assert(command.first() == '/');
    assert(command.last() == payload.last());
    lemma_trimmed_padding(before, command, after);
    assert(command.take(6) =~= "/start"@);
    assert(command.skip(6) =~= gap + payload + Seq::empty());
    lemma_trimmed_padding(gap, payload, Seq::empty());
}

/// A Telegram sender and a WhatsApp sender never share a key, and so never a session
/// or a limit.
pub proof fn a_telegram_id_is_never_a_phone(telegram: InboundView, whatsapp: InboundView)
    requires
        telegram.channel == CHANNEL@,
        whatsapp.channel == webhook::CHANNEL@,
    ensures
        sender_key_of(telegram) != sender_key_of(whatsapp),
{
    reveal_strlit("telegram");
    reveal_strlit("whatsapp");
    if sender_key_of(telegram) == sender_key_of(whatsapp) {
        sender_keys_are_distinct(telegram, whatsapp);
        assert(telegram.channel[0] == 't');
        assert(whatsapp.channel[0] == 'w');
    }
}

/// A text that is no start command is taken as it is, without the white space around it.
pub proof fn ordinary_text_is_taken_as_it_is(text: Seq<char>)
    ensures
        !starts_with(trimmed(text), "/start"@) ==> without_start(text) == trimmed(text),
        trimmed(text) == "/start"@ ==> without_start(text) == "/start"@,
{
    reveal_strlit("/start");
    if trimmed(text) == "/start"@ {
        assert("/start"@.skip(6) =~= Seq::empty());
    }
}

/// A message begins a turn exactly if the bot is known, its secret was presented, and the
/// message holds text that someone wrote.
pub proof fn only_telegrams_messages_begin_a_turn(
    found: BridgeResult<Option<MessagingChannel>>,
    presented: Option<Seq<char>>,
    update: Option<Update>,
)
    ensures
        chatter_for(found, presented, update) is Some <==> {
            &&& found is Ok && found->Ok_0 is Some
            &&& found->Ok_0->0.webhook_secret@ == (if presented is Some {
                presented->0
            } else {
                Seq::empty()
            })
            &&& update is Some && update->0.message is Some
            &&& update->0.message->0.text is Some
            &&& update->0.message->0.from is Some
        },
{
}

/// A message is answered in the chat that it was written in, for the sender who wrote it,
/// by the text that it holds.
pub proof fn a_message_is_taken_as_written(text: String, from: User, chat: Chat)
    ensures
        ({
            let update = Update {
                message: Some(Message { text: Some(text), from: Some(from), chat }),
            };
            let c = chatter_in(update);
            &&& c is Some
            &&& c->0.text == without_start(text@)
            &&& c->0.external_id == signed_decimal_of(from.id as int)
            &&& c->0.chat_id == chat.id
        }),
{
}

/// A turn is run for the sender, at the tenant whose bot was written to and with that
/// tenant's instructions.
pub proof fn a_turn_is_run_for_its_sender(c: ChatterView, channel: MessagingChannel)
    ensures
        c.inbound(channel).channel == "telegram"@,
        c.inbound(channel).external_id == c.external_id,
        c.inbound(channel).tenant_id == channel.tenant_id@,
        c.inbound(channel).system_prompt == channel.system_prompt@,
        c.inbound(channel).text == c.text,
{
}

/// The record of a failed turn is the store's record of that sender, message and error.
pub proof fn a_failed_turn_is_recorded_in_full(
    c: ChatterView,
    store: StoreView,
    channel: MessagingChannel,
    e: BridgeError,
)
    ensures
        ({
            let r = c.report(store, channel, e);
            &&& r.method == Method::Post
            &&& r.body is Some
            &&& r.body->0.at("tenant_id"@) == JsonView::Text(channel.tenant_id@)
            &&& r.body->0.at("customer_phone"@) == JsonView::Text(c.external_id)
            &&& r.body->0.at("message_text"@) == JsonView::Text(c.text)
            &&& r.body->0.at("error_type"@) == JsonView::Text(e@.broad_kind())
            &&& r.body->0.at("error_detail"@) == JsonView::Text(e@.message())
        }),
{
    a_failure_record_is_complete(
        store,
        channel.tenant_id@,
        c.external_id,
        c.text,
        e@.broad_kind(),
        e@.message(),
    );
}

} // verus!
