//! The WhatsApp adapter: proving to Meta that a webhook is ours, proving that a
//! delivery is Meta's, and handling the messages in it.

use hmac::{Hmac, Mac};
use sha2::Sha256;
use vstd::prelude::*;
use vstd::utf8::encode_utf8;

use crate::error::{BridgeError, BridgeResult};
use crate::http::{HttpRequest, WebReply};
use crate::json::{Json, JsonView};
use crate::models::{Change, ChannelInfo, Entry, WaMessage, WaText, WebhookPayload};
use crate::store_client::StoreClient;
use crate::text::{is_text, opt_str_view, opt_view, same_text, starts_with, strip_prefix};
use crate::turn::{Inbound, InboundView};
use crate::whatsapp_api::{posted, read_body, text_body, WhatsAppClient};

verus! {

/// The name of the channel.
pub const CHANNEL: &'static str = "whatsapp";

/// How many characters of a message its failure record keeps.
pub const PREVIEW_CHARS: usize = 500;

// The handshake with which Meta takes a webhook into use.

pub struct VerifyQuery {
    pub mode: Option<String>,
    pub verify_token: Option<String>,
    pub challenge: Option<String>,
}

/// The token that a channel expects; empty where it has none.
pub open spec fn expected_token(channel: JsonView) -> Seq<char> {
    match channel.at("verify_token"@).as_text() {
        Some(t) => t,
        None => Seq::empty(),
    }
}

/// The handshake is answered with its challenge.
pub open spec fn handshake_holds(channel: JsonView, query: VerifyQuery) -> bool {
    opt_view(query.mode) == Some("subscribe"@) && opt_view(query.verify_token) == Some(
        expected_token(channel),
    )
}

/// The channel that a look-up found. One that failed found none.
pub open spec fn channel_in(found: BridgeResult<Option<Json>>) -> Option<JsonView> {
    match found {
        Ok(Some(ch)) => Some(ch@),
        _ => None,
    }
}

/// The answer to a handshake for the tenant whose channel was looked up.
pub fn verify(found: &BridgeResult<Option<Json>>, query: &VerifyQuery) -> (r: WebReply)
    ensures
        match channel_in(*found) {
            None => r.is(403, "Unknown tenant"@),
            Some(ch) => if handshake_holds(ch, *query) {
                r.is(
                    200,
                    match query.challenge {
                        Some(c) => c@,
                        None => Seq::empty(),
                    },
                )
            } else {
                r.is(403, "Verification failed"@)
            },
        },
{
    match found {
        Ok(Some(ch)) => {
            proof {
                reveal_strlit("");
                assert(""@ =~= Seq::<char>::empty());
            }
            let expected: &str = match ch.text_at("verify_token") {
                Some(t) => t,
                None => "",
            };
            if is_text(&query.mode, "subscribe") && is_text(&query.verify_token, expected) {
                match &query.challenge {
                    Some(c) => WebReply::new(200, c.as_str()),
                    None => WebReply::new(200, ""),
                }
            } else {
                WebReply::new(403, "Verification failed")
            }
        },
        _ => WebReply::new(403, "Unknown tenant"),
    }
}

// Signatures.

pub open spec fn is_hex_digit(c: char) -> bool {
    ||| '0' as u32 <= c as u32 <= '9' as u32
    ||| 'a' as u32 <= c as u32 <= 'f' as u32
    ||| 'A' as u32 <= c as u32 <= 'F' as u32
}

/// The value of a hexadecimal digit.
pub open spec fn hex_value(c: char) -> int {
    if c as u32 <= '9' as u32 {
        c as u32 - '0' as u32
    } else if c as u32 <= 'F' as u32 {
        c as u32 - 'A' as u32 + 10
    } else {
        c as u32 - 'a' as u32 + 10
    }
}

/// `s` is made of pairs of hexadecimal digits.
pub open spec fn is_hex(s: Seq<char>) -> bool {
    s.len() % 2 == 0 && forall|i: int| 0 <= i < s.len() ==> is_hex_digit(#[trigger] s[i])
}

/// The bytes that pairs of hexadecimal digits stand for.
pub open spec fn hex_bytes(s: Seq<char>) -> Seq<u8> {
    Seq::new(
        s.len() / 2,
        |i: int| (16 * hex_value(s[2 * i]) + hex_value(s[2 * i + 1])) as u8,
    )
}

/// The HMAC-SHA256 of a message under a key.
pub uninterp spec fn hmac_sha256(key: Seq<u8>, message: Seq<u8>) -> Seq<u8>;

#[verifier::external_type_specification]
#[verifier::external_body]
pub struct ExFromHexError(hex::FromHexError);

/// Calls `hex::decode`. It succeeds on an even number of hexadecimal digits, in either
/// case and nothing else, and then gives the byte that each pair stands for.
#[verifier::external_body]
fn hex_decode(s: &str) -> (r: Result<Vec<u8>, hex::FromHexError>)
    ensures
        r is Ok <==> is_hex(s@),
        r matches Ok(bytes) ==> bytes@ == hex_bytes(s@),
{
    hex::decode(s)
}

/// Calls `new_from_slice`, `update` and `verify_slice` of `hmac::Hmac<sha2::Sha256>`.
/// A key of any length is taken. The message is authentic exactly if the tag is its
/// whole code under the key, which has 32 bytes.
#[verifier::external_body]
fn mac_matches(key: &[u8], message: &[u8], tag: &[u8]) -> (r: Option<bool>)
    ensures
        r == Some(tag@ == hmac_sha256(key@, message@)),
        r == Some(true) ==> tag@.len() == 32,
{
    match Hmac::<Sha256>::new_from_slice(key) {
        Ok(mut mac) => {
            mac.update(message);
            Some(mac.verify_slice(tag).is_ok())
        },
        Err(_) => None,
    }
}

/// What is wrong with a signature, where something is.
pub open spec fn signature_fault(
    secret: Seq<char>,
    signature_header: Seq<char>,
    body: Seq<u8>,
) -> Option<Seq<char>> {
    let hex = signature_header.skip("sha256="@.len() as int);
    if !starts_with(signature_header, "sha256="@) {
        Some("Missing sha256= prefix"@)
    } else if !is_hex(hex) {
        Some("Invalid hex in signature header"@)
    } else if hex_bytes(hex) != hmac_sha256(encode_utf8(secret), body) {
        Some("Signature mismatch"@)
    } else {
        None
    }
}

/// What a comparison of codes says of a signature; nothing is known where the key was
/// not taken.
pub fn mac_verdict(matched: Option<bool>) -> (r: Result<(), String>)
    ensures
        match matched {
            Some(true) => r is Ok,
            Some(false) => r matches Err(e) && e@ == "Signature mismatch"@,
            None => r matches Err(e) && e@ == "Invalid HMAC key"@,
        },
{
    match matched {
        Some(true) => Ok(()),
        Some(false) => Err("Signature mismatch".to_owned()),
        None => Err("Invalid HMAC key".to_owned()),
    }
}

/// Holds the header `sha256=<hex>` against the raw body, or says what is wrong.
pub fn validate_signature(secret: &str, signature_header: &str, body: &[u8]) -> (r: Result<
    (),
    String,
>)
    ensures
        match r {
            Ok(()) => signature_fault(secret@, signature_header@, body@) is None,
            Err(e) => signature_fault(secret@, signature_header@, body@) == Some(e@),
        },
        r is Ok ==> signature_header@.len() == 71,
{
    let hex: &str = match strip_prefix(signature_header, "sha256=") {
        Some(h) => h,
        None => return Err("Missing sha256= prefix".to_owned()),
    };
    let tag: Vec<u8> = match hex_decode(hex) {
        Ok(t) => t,
        Err(_) => return Err("Invalid hex in signature header".to_owned()),
    };
    let matched: Option<bool> = mac_matches(secret.as_bytes(), body, tag.as_slice());
    proof {
        reveal_strlit("sha256=");
    }
    mac_verdict(matched)
}

// Who may deliver.

/// A secret counts only where it is not empty.
pub open spec fn usable(secret: Option<Seq<char>>) -> Option<Seq<char>> {
    match secret {
        Some(s) => if s.len() == 0 {
            None
        } else {
            Some(s)
        },
        None => None,
    }
}

/// The secret that a tenant's deliveries are signed with: their own, else the
/// platform's.
pub open spec fn signing_secret(
    tenant: Option<Seq<char>>,
    platform: Option<Seq<char>>,
) -> Option<Seq<char>> {
    match usable(tenant) {
        Some(s) => Some(s),
        None => usable(platform),
    }
}

/// Why a delivery is refused, where it is. Without a secret to hold it against it is
/// refused too, unless unsigned deliveries are allowed.
pub open spec fn refusal(
    secret: Option<Seq<char>>,
    allow_unsigned: bool,
    header: Option<Seq<char>>,
    body: Seq<u8>,
) -> Option<Seq<char>> {
    match secret {
        Some(s) => if header is None || header->0.len() == 0 {
            Some("Missing signature"@)
        } else if signature_fault(s, header->0, body) is Some {
            Some("Invalid signature"@)
        } else {
            None
        },
        None => if allow_unsigned {
            None
        } else {
            Some("Invalid signature"@)
        },
    }
}

/// Shows that a delivery passed [`authenticate`].
pub struct Authentic {
    passed: (),
}

/// The secret in a setting or a channel; none where it is empty.
pub fn usable_secret<'a>(secret: Option<&'a str>) -> (r: Option<&'a str>)
    ensures
        opt_str_view(r) == usable(opt_str_view(secret)),
{
    match secret {
        Some(s) => if s.unicode_len() == 0 {
            None
        } else {
            Some(s)
        },
        None => None,
    }
}

/// The App Secret that a tenant gave for their channel, which was looked up.
pub fn tenant_secret<'a>(found: &'a BridgeResult<Option<Json>>) -> (r: Option<&'a str>)
    ensures
        opt_str_view(r) == (match channel_in(*found) {
            Some(ch) => ch.at("app_secret"@).as_text(),
            None => None,
        }),
{
    match found {
        Ok(Some(ch)) => ch.text_at("app_secret"),
        _ => None,
    }
}

/// A flag of the environment is on where it says `true` or `1`.
pub fn flag_is_on(value: Option<&str>) -> (r: bool)
    ensures
        r == (opt_str_view(value) == Some("true"@) || opt_str_view(value) == Some("1"@)),
{
    match value {
        Some(v) => same_text(v, "true") || same_text(v, "1"),
        None => false,
    }
}

/// Lets a delivery pass, or refuses it.
pub fn authenticate(
    tenant: Option<&str>,
    platform: Option<&str>,
    allow_unsigned: bool,
    header: Option<&str>,
    body: &[u8],
) -> (r: Result<Authentic, WebReply>)
    ensures
        match refusal(
            signing_secret(opt_str_view(tenant), opt_str_view(platform)),
            allow_unsigned,
            opt_str_view(header),
            body@,
        ) {
            None => r is Ok,
            Some(why) => r matches Err(reply) && reply.is(401, why),
        },
{
    let secret: Option<&str> = match usable_secret(tenant) {
        Some(s) => Some(s),
        None => usable_secret(platform),
    };
    match secret {
        Some(s) => match usable_secret(header) {
            Some(h) => match validate_signature(s, h, body) {
                Ok(()) => Ok(Authentic { passed: () }),
                Err(_) => Err(WebReply::new(401, "Invalid signature")),
            },
            None => Err(WebReply::new(401, "Missing signature")),
        },
        None => if allow_unsigned {
            Ok(Authentic { passed: () })
        } else {
            Err(WebReply::new(401, "Invalid signature"))
        },
    }
}

// What is delivered.

/// A message as contracts speak of it.
pub struct WaView {
    pub from: Seq<char>,
    pub id: Seq<char>,
    pub msg_type: Seq<char>,
    pub text: Option<Seq<char>>,
}

impl View for WaMessage {
    type V = WaView;

    open spec fn view(&self) -> WaView {
        WaView {
            from: self.from@,
            id: self.id@,
            msg_type: self.msg_type@,
            text: match self.text {
                Some(t) => Some(t.body@),
                None => None,
            },
        }
    }
}

/// A message, with the phone number that it was sent to.
pub struct Delivery {
    pub phone_number_id: String,
    pub message: WaMessage,
}

pub struct DeliveryView {
    pub phone_number_id: Seq<char>,
    pub message: WaView,
}

impl View for Delivery {
    type V = DeliveryView;

    open spec fn view(&self) -> DeliveryView {
        DeliveryView { phone_number_id: self.phone_number_id@, message: self.message@ }
    }
}

pub open spec fn delivery_views(v: Seq<Delivery>) -> Seq<DeliveryView> {
    v.map_values(|d: Delivery| d@)
}

/// The messages that a change brings.
pub open spec fn in_change(c: Change) -> Seq<DeliveryView> {
    if c.field@ != "messages"@ {
        Seq::empty()
    } else {
        match c.value.messages {
            Some(messages) => messages@.map_values(
                |m: WaMessage|
                    DeliveryView {
                        phone_number_id: c.value.metadata.phone_number_id@,
                        message: m@,
                    },
            ),
            None => Seq::empty(),
        }
    }
}

pub open spec fn in_changes(changes: Seq<Change>) -> Seq<DeliveryView>
    decreases changes.len(),
{
    if changes.len() == 0 {
        Seq::empty()
    } else {
        in_changes(changes.drop_last()) + in_change(changes.last())
    }
}

pub open spec fn in_entries(entries: Seq<Entry>) -> Seq<DeliveryView>
    decreases entries.len(),
{
    if entries.len() == 0 {
        Seq::empty()
    } else {
        in_entries(entries.drop_last()) + in_changes(entries.last().changes@)
    }
}

/// The messages in a payload, in order; none where it is not about WhatsApp.
pub open spec fn in_payload(p: WebhookPayload) -> Seq<DeliveryView> {
    if p.object@ != "whatsapp_business_account"@ {
        Seq::empty()
    } else {
        in_entries(p.entry@)
    }
}

fn copy_message(m: &WaMessage) -> (r: WaMessage)
    ensures
        r@ == m@,
{
    WaMessage {
        from: m.from.clone(),
        id: m.id.clone(),
        msg_type: m.msg_type.clone(),
        text: match &m.text {
            Some(t) => Some(WaText { body: t.body.clone() }),
            None => None,
        },
    }
}

fn add_change(c: &Change, out: &mut Vec<Delivery>)
    ensures
        delivery_views(final(out)@) == delivery_views(old(out)@) + in_change(*c),
{
    let ghost before = delivery_views(out@);
    if same_text(c.field.as_str(), "messages") {
        match &c.value.messages {
            Some(messages) => {
                let ghost all = in_change(*c);
                let mut i: usize = 0;
                assert(before + all.take(0) =~= before);
                while i < messages.len()
                    invariant
                        i <= messages.len(),
                        c.value.messages == Some(*messages),
                        c.field@ == "messages"@,
                        all == in_change(*c),
                        all.len() == messages@.len(),
                        delivery_views(out@) == before + all.take(i as int),
                    decreases messages.len() - i,
                {
                    let ghost was = out@;
                    let d = Delivery {
                        phone_number_id: c.value.metadata.phone_number_id.clone(),
                        message: copy_message(&messages[i]),
                    };
                    out.push(d);
                    proof {
                        assert(delivery_views(out@) =~= delivery_views(was).push(d@));
                        assert(d@ == all[i as int]);
                        assert(before + all.take(i + 1) =~= (before + all.take(i as int)).push(
                            all[i as int],
                        ));
                    }
                    i = i + 1;
                }
                assert(all.take(messages.len() as int) =~= all);
                return;
            },
            None => {},
        }
    }
    assert(before + Seq::empty() =~= before);
}

/// The messages in a payload, in order.
pub fn process_payload(payload: &WebhookPayload) -> (r: Vec<Delivery>)
    ensures
        delivery_views(r@) == in_payload(*payload),
{
    let mut out: Vec<Delivery> = Vec::new();
    assert(delivery_views(out@) =~= Seq::empty());
    if !same_text(payload.object.as_str(), "whatsapp_business_account") {
        return out;
    }
    let entries = &payload.entry;
    let mut i: usize = 0;
    while i < entries.len()
        invariant
            i <= entries.len(),
            delivery_views(out@) == in_entries(entries@.take(i as int)),
        decreases entries.len() - i,
    {
        let changes = &entries[i].changes;
        let ghost before = delivery_views(out@);
        let mut j: usize = 0;
        assert(before + in_changes(changes@.take(0)) =~= before);
        while j < changes.len()
            invariant
                j <= changes.len(),
                delivery_views(out@) == before + in_changes(changes@.take(j as int)),
            decreases changes.len() - j,
        {
            add_change(&changes[j], &mut out);
            proof {
                let longer = changes@.take(j + 1);
                assert(longer.drop_last() =~= changes@.take(j as int));
                assert(before + in_changes(longer) =~= before + in_changes(changes@.take(j as int))
                    + in_change(changes@[j as int]));
            }
            j = j + 1;
        }
        proof {
            assert(changes@.take(changes.len() as int) =~= changes@);
            assert(entries@.take(i + 1).drop_last() =~= entries@.take(i as int));
        }
        i = i + 1;
    }
    assert(entries@.take(entries.len() as int) =~= entries@);
    out
}

/// What is to be done with a delivery that was let pass.
pub enum Received {
    Refused(WebReply),
    /// Meta is answered at once; the messages are handled after that.
    Accepted { reply: WebReply, deliveries: Vec<Delivery> },
}

/// What is to be done with the payload of a delivery that was let pass; `None` where
/// the body could not be read as one.
pub fn incoming(passed: Authentic, payload: Option<WebhookPayload>) -> (r: Received)
    ensures
        match payload {
            None => r matches Received::Refused(reply) && reply.is(400, "Invalid payload"@),
            Some(p) => r matches Received::Accepted { reply, deliveries } && reply.is(200, "OK"@)
                && delivery_views(deliveries@) == in_payload(p),
        },
{
    match payload {
        None => Received::Refused(WebReply::new(400, "Invalid payload")),
        Some(p) => Received::Accepted {
            reply: WebReply::new(200, "OK"),
            deliveries: process_payload(&p),
        },
    }
}

// Handling one message.

/// The text of a message, where it is a text message.
pub open spec fn text_of(m: WaView) -> Option<Seq<char>> {
    if m.msg_type == "text"@ {
        m.text
    } else {
        None
    }
}

/// The first characters of a text.
pub open spec fn preview_of(text: Option<Seq<char>>) -> Seq<char> {
    match text {
        Some(t) => if t.len() <= PREVIEW_CHARS {
            t
        } else {
            t.take(PREVIEW_CHARS as int)
        },
        None => Seq::empty(),
    }
}

/// The turn that a message begins.
pub open spec fn inbound_of(
    tenant_id: Seq<char>,
    d: DeliveryView,
    system_prompt: Seq<char>,
    text: Seq<char>,
) -> InboundView {
    InboundView {
        channel: CHANNEL@,
        external_id: d.message.from,
        tenant_id,
        system_prompt,
        text,
    }
}

/// What a message with a known channel begins with.
pub struct Handling<'a> {
    /// Marks the message as read, and shows that work is under way.
    pub read: HttpRequest,
    pub inbound: Inbound<'a>,
}

/// The channel to answer on, or the end: a message to a number that no channel
/// has is ignored.
pub fn channel_or_end(found: BridgeResult<Option<ChannelInfo>>) -> (r: Result<
    ChannelInfo,
    BridgeResult<()>,
>)
    ensures
        match found {
            Ok(Some(c)) => r == Ok::<ChannelInfo, BridgeResult<()>>(c),
            Ok(None) => r == Err::<ChannelInfo, BridgeResult<()>>(Ok(())),
            Err(e) => r == Err::<ChannelInfo, BridgeResult<()>>(Err(e)),
        },
{
    match found {
        Ok(Some(c)) => Ok(c),
        Ok(None) => Err(Ok(())),
        Err(e) => Err(Err(e)),
    }
}

impl Delivery {
    /// The text to be answered; none where this is no text message, and is ignored.
    pub fn text(&self) -> (r: Option<&str>)
        ensures
            opt_str_view(r) == text_of(self@.message),
    {
        if !same_text(self.message.msg_type.as_str(), "text") {
            return None;
        }
        match &self.message.text {
            Some(t) => Some(t.body.as_str()),
            None => None,
        }
    }

    /// The text that a record of a failure shows.
    pub fn preview(&self) -> (r: String)
        ensures
            r@ == preview_of(self@.message.text),
    {
        match &self.message.text {
            Some(t) => {
                if t.body.as_str().unicode_len() <= PREVIEW_CHARS {
                    t.body.clone()
                } else {
                    proof {
                        assert(t.body@.subrange(0, PREVIEW_CHARS as int) =~= t.body@.take(
                            PREVIEW_CHARS as int,
                        ));
                    }
                    t.body.as_str().substring_char(0, PREVIEW_CHARS).to_owned()
                }
            },
            None => String::new(),
        }
    }

    /// What a message with a known channel begins with, where it is a text message.
    pub fn handle_message<'a>(
        &'a self,
        wa: &WhatsAppClient,
        tenant_id: &'a str,
        channel: &'a ChannelInfo,
    ) -> (r: Option<Handling<'a>>)
        ensures
            match text_of(self@.message) {
                None => r is None,
                Some(text) => r matches Some(h) && h.read@ == posted(
                    self@.phone_number_id,
                    channel.wa_token@,
                    read_body(self@.message.id),
                ) && h.inbound@ == inbound_of(
                    tenant_id@,
                    self@,
                    channel.system_prompt@,
                    text,
                ),
            },
    {
        match self.text() {
            None => None,
            Some(text) => Some(
                Handling {
                    read: wa.mark_read(
                        self.phone_number_id.as_str(),
                        channel.wa_token.as_str(),
                        self.message.id.as_str(),
                    ),
                    inbound: Inbound {
                        channel: CHANNEL,
                        external_id: self.message.from.as_str(),
                        tenant_id,
                        system_prompt: channel.system_prompt.as_str(),
                        text,
                    },
                },
            ),
        }
    }

    /// The request that sends the reply to the customer, where the turn gave one.
    pub fn replied(
        &self,
        wa: &WhatsAppClient,
        channel: &ChannelInfo,
        turn: BridgeResult<String>,
    ) -> (r: BridgeResult<HttpRequest>)
        ensures
            match turn {
                Ok(reply) => r matches Ok(req) && req@ == posted(
                    self@.phone_number_id,
                    channel.wa_token@,
                    text_body(self@.message.from, reply@),
                ),
                Err(e) => r == Err::<HttpRequest, BridgeError>(e),
            },
    {
        match turn {
            Ok(reply) => Ok(
                wa.send_text(
                    self.phone_number_id.as_str(),
                    channel.wa_token.as_str(),
                    self.message.from.as_str(),
                    reply.as_str(),
                ),
            ),
            Err(e) => Err(e),
        }
    }

    /// The record of a message that could not be handled.
    pub fn failed(&self, store: &StoreClient, tenant_id: &str, e: &BridgeError) -> (r: HttpRequest)
        ensures
            r@ == store@.failure_report(
                tenant_id@,
                self@.message.from,
                preview_of(self@.message.text),
                e@.kind(),
                e@.message(),
            ),
    {
        store.log_failed_message(
            tenant_id,
            self.message.from.as_str(),
            self.preview().as_str(),
            e.kind(),
            e.message().as_str(),
        )
    }
}

// Laws.

/// Whoever may not deliver unsigned gets in only with the code of the body under the
/// secret, and with it they do.
pub proof fn only_the_signed_get_in(
    secret: Seq<char>,
    allow_unsigned: bool,
    header: Seq<char>,
    body: Seq<u8>,
)
    ensures
        refusal(Some(secret), allow_unsigned, Some(header), body) is None <==> {
            let hex = header.skip(7);
            &&& starts_with(header, "sha256="@)
            &&& is_hex(hex)
            &&& hex_bytes(hex) == hmac_sha256(encode_utf8(secret), body)
        },
        refusal(None, false, Some(header), body) is Some,
{
    reveal_strlit("sha256=");
}

/// A tenant's own secret is never overruled by the platform's.
pub proof fn the_tenants_secret_comes_first(tenant: Seq<char>, platform: Option<Seq<char>>)
    requires
        tenant.len() > 0,
    ensures
        signing_secret(Some(tenant), platform) == Some(tenant),
        signing_secret(None, platform) == usable(platform),
{
}

proof fn lemma_in_changes(changes: Seq<Change>, j: int, d: DeliveryView)
    requires
        0 <= j < changes.len(),
        in_change(changes[j]).contains(d),
    ensures
        in_changes(changes).contains(d),
    decreases changes.len(),
{
    let last = in_change(changes.last());
    let init = in_changes(changes.drop_last());
    if j == changes.len() - 1 {
        let i = last.index_of(d);
        assert(in_changes(changes)[init.len() + i] == d);
    } else {
        lemma_in_changes(changes.drop_last(), j, d);
        let i = init.index_of(d);
        assert(in_changes(changes)[i] == d);
    }
}

proof fn lemma_in_entries(entries: Seq<Entry>, i: int, d: DeliveryView)
    requires
        0 <= i < entries.len(),
        in_changes(entries[i].changes@).contains(d),
    ensures
        in_entries(entries).contains(d),
    decreases entries.len(),
{
    let last = in_changes(entries.last().changes@);
    let init = in_entries(entries.drop_last());
    if i == entries.len() - 1 {
        let k = last.index_of(d);
        assert(in_entries(entries)[init.len() + k] == d);
    } else {
        lemma_in_entries(entries.drop_last(), i, d);
        let k = init.index_of(d);
        assert(in_entries(entries)[k] == d);
    }
}

/// No message is lost on the way: each that a WhatsApp payload brings is delivered,
/// with the number that it was sent to.
pub proof fn every_message_is_delivered(p: WebhookPayload, i: int, j: int, k: int)
    requires
        p.object@ == "whatsapp_business_account"@,
        0 <= i < p.entry@.len(),
        0 <= j < p.entry@[i].changes@.len(),
        p.entry@[i].changes@[j].field@ == "messages"@,
        p.entry@[i].changes@[j].value.messages is Some,
        0 <= k < p.entry@[i].changes@[j].value.messages->0@.len(),
    ensures
        ({
            let value = p.entry@[i].changes@[j].value;
            in_payload(p).contains(
                DeliveryView {
                    phone_number_id: value.metadata.phone_number_id@,
                    message: value.messages->0@[k]@,
                },
            )
        }),
{
    let c = p.entry@[i].changes@[j];
    let d = DeliveryView {
        phone_number_id: c.value.metadata.phone_number_id@,
        message: c.value.messages->0@[k]@,
    };
    assert(in_change(c)[k] == d);
    lemma_in_changes(p.entry@[i].changes@, j, d);
    lemma_in_entries(p.entry@, i, d);
}

/// A handshake holds exactly if it subscribes and presents the channel's own token.
pub proof fn only_the_channels_token_subscribes(
    channel: JsonView,
    token: Seq<char>,
    query: VerifyQuery,
)
    requires
        channel.at("verify_token"@) == JsonView::Text(token),
    ensures
        handshake_holds(channel, query) <==> {
            &&& query.mode is Some && query.mode->0@ == "subscribe"@
            &&& query.verify_token is Some && query.verify_token->0@ == token
        },
{
}

/// A failed look-up and an unknown tenant are the same to a handshake, and a channel that
/// was found is taken as it is.
pub proof fn a_channel_is_taken_as_found(found: BridgeResult<Option<Json>>)
    ensures
        found is Err ==> channel_in(found) is None,
        found is Ok && found->Ok_0 is None ==> channel_in(found) is None,
        found is Ok && found->Ok_0 is Some ==> channel_in(found) == Some(found->Ok_0->0@),
{
}

/// Where there is a secret, a delivery without a signature is refused, whether unsigned
/// ones are allowed or not. Where there is none, only the permission decides, whatever
/// the delivery carries.
pub proof fn unsigned_deliveries_need_permission(
    secret: Seq<char>,
    allow_unsigned: bool,
    header: Option<Seq<char>>,
    body: Seq<u8>,
)
    ensures
        refusal(Some(secret), allow_unsigned, None, body) is Some,
        refusal(Some(secret), allow_unsigned, Some(Seq::empty()), body) is Some,
        refusal(None, allow_unsigned, header, body) is None <==> allow_unsigned,
        refusal(Some(secret), true, header, body) == refusal(Some(secret), false, header, body),
{
}

/// An empty secret is none: the next one counts, down to none at all.
pub proof fn an_empty_secret_is_none(platform: Seq<char>)
    requires
        platform.len() > 0,
    ensures
        signing_secret(Some(Seq::empty()), Some(platform)) == Some(platform),
        signing_secret(None, Some(platform)) == Some(platform),
        signing_secret(None, Some(Seq::empty())) is None,
        signing_secret(Some(Seq::empty()), None) is None,
        signing_secret(None, None) is None,
{
}

proof fn lemma_in_changes_concat(a: Seq<Change>, b: Seq<Change>)
    ensures
        in_changes(a + b) == in_changes(a) + in_changes(b),
    decreases b.len(),
{
    if b.len() == 0 {
        assert(a + b =~= a);
        assert(in_changes(a) + in_changes(b) =~= in_changes(a));
    } else {
        lemma_in_changes_concat(a, b.drop_last());
        assert((a + b).drop_last() =~= a + b.drop_last());
        assert(in_changes(a + b) =~= in_changes(a) + in_changes(b));
    }
}

proof fn lemma_in_entries_concat(a: Seq<Entry>, b: Seq<Entry>)
    ensures
        in_entries(a + b) == in_entries(a) + in_entries(b),
    decreases b.len(),
{
    if b.len() == 0 {
        assert(a + b =~= a);
        assert(in_entries(a) + in_entries(b) =~= in_entries(a));
    } else {
        lemma_in_entries_concat(a, b.drop_last());
        assert((a + b).drop_last() =~= a + b.drop_last());
        assert(in_entries(a + b) =~= in_entries(a) + in_entries(b));
    }
}

/// Messages are delivered in the order in which they stand in a payload, each once: what
/// stands behind something else is delivered behind it.
pub proof fn deliveries_add_up(
    changes1: Seq<Change>,
    changes2: Seq<Change>,
    entries1: Seq<Entry>,
    entries2: Seq<Entry>,
    e: Entry,
)
    ensures
        in_changes(changes1 + changes2) == in_changes(changes1) + in_changes(changes2),
        in_entries(entries1 + entries2) == in_entries(entries1) + in_entries(entries2),
        in_entries(seq![e]) == in_changes(e.changes@),
{
    lemma_in_changes_concat(changes1, changes2);
    lemma_in_entries_concat(entries1, entries2);
    reveal_with_fuel(in_entries, 2);
    assert(seq![e].drop_last() =~= Seq::empty());
    assert(in_entries(seq![e]) =~= in_changes(e.changes@));
}

/// A change about messages delivers each of its messages, unchanged and once, for the
/// number that the change is about. Any other change delivers none.
pub proof fn a_change_delivers_its_messages(c: Change, k: int)
    ensures
        in_changes(seq![c]) == in_change(c),
        c.field@ != "messages"@ ==> in_change(c).len() == 0,
        c.value.messages is None ==> in_change(c).len() == 0,
        c.field@ == "messages"@ && c.value.messages is Some ==> {
            let messages = c.value.messages->0@;
            &&& in_change(c).len() == messages.len()
            &&& 0 <= k < messages.len() ==> {
                &&& in_change(c)[k].phone_number_id == c.value.metadata.phone_number_id@
                &&& in_change(c)[k].message.from == messages[k].from@
                &&& in_change(c)[k].message.id == messages[k].id@
                &&& in_change(c)[k].message.msg_type == messages[k].msg_type@
                &&& messages[k].text is Some ==> in_change(c)[k].message.text == Some(
                    messages[k].text->0.body@,
                )
                &&& messages[k].text is None ==> in_change(c)[k].message.text is None
            }
        },
{
    reveal_with_fuel(in_changes, 2);
    assert(seq![c].drop_last() =~= Seq::empty());
    assert(in_changes(seq![c]) =~= in_change(c));
}

/// A payload is looked into exactly if it is about a WhatsApp account.
pub proof fn only_whatsapp_payloads_deliver(p: WebhookPayload)
    ensures
        p.object@ == "whatsapp_business_account"@ ==> in_payload(p) == in_entries(p.entry@),
        p.object@ != "whatsapp_business_account"@ ==> in_payload(p).len() == 0,
{
}

/// The text of a text message is answered as it is, however long, and no other message
/// is.
pub proof fn only_text_messages_are_answered(m: WaView)
    ensures
        m.msg_type == "text"@ ==> text_of(m) == m.text,
        m.msg_type != "text"@ ==> text_of(m) is None,
{
}

/// A preview is the beginning of a text: all of it up to five hundred characters, and
/// five hundred characters of a longer one.
pub proof fn a_preview_is_the_beginning(text: Seq<char>)
    ensures
        preview_of(Some(text)).len() == (if text.len() <= 500 {
            text.len() as int
        } else {
            500
        }),
        preview_of(Some(text)) == text.take(preview_of(Some(text)).len() as int),
        preview_of(None).len() == 0,
{
    if text.len() <= 500 {
        assert(text.take(text.len() as int) =~= text);
    }
}

/// A message is handled for whoever sent it, at the tenant that it was delivered for, in
/// the tenant's words and its own.
pub proof fn a_message_is_handled_for_its_sender(
    tenant_id: Seq<char>,
    d: DeliveryView,
    system_prompt: Seq<char>,
    text: Seq<char>,
)
    ensures
        ({
            let m = inbound_of(tenant_id, d, system_prompt, text);
            &&& m.channel == "whatsapp"@
            &&& m.external_id == d.message.from
            &&& m.tenant_id == tenant_id
            &&& m.system_prompt == system_prompt
            &&& m.text == text
        }),
{
}

/// A channel that names no token expects the empty one.
pub proof fn a_channel_without_a_token_expects_none(channel: JsonView, query: VerifyQuery)
    requires
        channel.at("verify_token"@).as_text() is None,
    ensures
        handshake_holds(channel, query) <==> {
            &&& query.mode is Some && query.mode->0@ == "subscribe"@
            &&& query.verify_token is Some && query.verify_token->0@.len() == 0
        },
{
    if query.verify_token is Some && query.verify_token->0@.len() == 0 {
        assert(query.verify_token->0@ =~= Seq::empty());
    }
}

/// Digits in base sixteen are those of the alphabet, in either case, and each counts for
/// its place in it.
pub proof fn digits_count_for_their_place(i: int, c: char)
    ensures
        0 <= i < 16 ==> {
            &&& is_hex_digit("0123456789abcdef"@[i]) && hex_value("0123456789abcdef"@[i]) == i
            &&& is_hex_digit("0123456789ABCDEF"@[i]) && hex_value("0123456789ABCDEF"@[i]) == i
        },
        is_hex_digit(c) ==> "0123456789abcdef"@.contains(c) || "0123456789ABCDEF"@.contains(c),
{
    reveal_strlit("0123456789abcdef");
    reveal_strlit("0123456789ABCDEF");
    if is_hex_digit(c) {
        let k = hex_value(c);
        assert(0 <= k < 16);
        if c as u32 <= 'F' as u32 {
            assert("0123456789ABCDEF"@[k] == c);
        } else {
            assert("0123456789abcdef"@[k] == c);
        }
    }
}

/// Two digits make a byte, the first sixteen times the second, in order and with none
/// left over.
pub proof fn two_digits_make_a_byte(s: Seq<char>, k: int)
    requires
        is_hex(s),
    ensures
        2 * hex_bytes(s).len() == s.len(),
        0 <= k < hex_bytes(s).len() ==> {
            &&& hex_bytes(s)[k] / 16 == hex_value(s[2 * k])
            &&& hex_bytes(s)[k] % 16 == hex_value(s[2 * k + 1])
        },
{
    if 0 <= k < hex_bytes(s).len() {
        assert(is_hex_digit(s[2 * k]));
        assert(is_hex_digit(s[2 * k + 1]));
    }
}

/// A fault in a signature is told for what it is: no signature of the right sort, no
/// digits, or somebody else's.
pub proof fn faults_are_told_apart(secret: Seq<char>, header: Seq<char>, body: Seq<u8>)
    ensures
        !starts_with(header, "sha256="@) ==> signature_fault(secret, header, body) == Some(
            "Missing sha256= prefix"@,
        ),
        starts_with(header, "sha256="@) && !is_hex(header.skip(7)) ==> signature_fault(
            secret,
            header,
            body,
        ) == Some("Invalid hex in signature header"@),
        starts_with(header, "sha256="@) && is_hex(header.skip(7)) && hex_bytes(header.skip(7))
            != hmac_sha256(encode_utf8(secret), body) ==> signature_fault(secret, header, body)
            == Some("Signature mismatch"@),
{
    reveal_strlit("sha256=");
}

/// A delivery without a signature is told from one with a wrong signature.
pub proof fn a_missing_signature_is_told(
    secret: Seq<char>,
    allow_unsigned: bool,
    header: Seq<char>,
    body: Seq<u8>,
)
    ensures
        refusal(Some(secret), allow_unsigned, None, body) == Some("Missing signature"@),
        header.len() == 0 ==> refusal(Some(secret), allow_unsigned, Some(header), body) == Some(
            "Missing signature"@,
        ),
        header.len() > 0 && signature_fault(secret, header, body) is Some ==> refusal(
            Some(secret),
            allow_unsigned,
            Some(header),
            body,
        ) == Some("Invalid signature"@),
        refusal(None, false, Some(header), body) == Some("Invalid signature"@),
{
}

} // verus!
