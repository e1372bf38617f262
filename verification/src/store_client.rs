//! The client of the store, which keeps channels, sessions and failed messages:
//! requests to be sent, and what their replies mean.

use vstd::prelude::*;
use vstd::utf8::*;

use crate::claude::{message_json, messages_value};
use crate::error::{BridgeError, BridgeResult, ErrorView};
use crate::http::{is_success, opt_json_view, success, HttpReply, HttpRequest, Method, RequestView};
use crate::json::{
    lookup, member, member_views, members_are_found_by_name, whole_numbers_are_read, Json,
    JsonView, Member,
};
use crate::models::{message_views, ClaudeMessage, MessageView};
use crate::text::{concat2, concat3, decimal_of, signed_decimal, signed_decimal_of};

verus! {

// Percent encoding.

/// The bytes that stand for themselves in an encoded text.
pub open spec fn is_unreserved(b: u8) -> bool {
    ||| 0x30 <= b <= 0x39
    ||| 0x41 <= b <= 0x5a
    ||| 0x61 <= b <= 0x7a
    ||| b == 0x2d
    ||| b == 0x2e
    ||| b == 0x5f
    ||| b == 0x7e
}

/// The upper-case hexadecimal digit for `d`.
pub open spec fn hex_digit(d: u8) -> char {
    if d < 10 {
        (0x30 + d) as char
    } else {
        (0x37 + d) as char
    }
}

/// One byte, encoded.
pub open spec fn percent(b: u8) -> Seq<char> {
    if is_unreserved(b) {
        seq![b as char]
    } else {
        seq!['%', hex_digit(b / 16), hex_digit(b % 16)]
    }
}

/// A run of bytes, encoded.
pub open spec fn percent_all(bytes: Seq<u8>) -> Seq<char>
    decreases bytes.len(),
{
    if bytes.len() == 0 {
        Seq::empty()
    } else {
        percent(bytes[0]) + percent_all(bytes.drop_first())
    }
}

/// A text, encoded for one segment of a path.
pub open spec fn encoded(s: Seq<char>) -> Seq<char> {
    percent_all(encode_utf8(s))
}

/// Calls `urlencoding::encode`. Every byte of the text in UTF-8 comes out as a percent
/// sign and two upper-case hexadecimal digits, except ASCII letters and digits and
/// `-`, `_`, `.` and `~`, which come out as they are.
#[verifier::external_body]
fn url_encode(s: &str) -> (r: String)
    ensures
        r@ == encoded(s@),
{
    urlencoding::encode(s).into_owned()
}

// What replies mean.

/// What a look-up found: nothing where the store knows nothing, and an error where it
/// answered one, was not reached or answered what cannot be read.
pub open spec fn found_in<T>(reply: Result<HttpReply<T>, String>) -> Result<Option<T>, ErrorView> {
    match reply {
        Err(e) => Err(ErrorView::StoreNetwork(e@)),
        Ok(reply) => if reply.status == 404 {
            Ok(None)
        } else if !is_success(reply.status) {
            Err(ErrorView::Store { status: reply.status, message: reply.text@ })
        } else {
            match reply.parsed {
                Ok(v) => Ok(Some(v)),
                Err(e) => Err(ErrorView::Other(e@)),
            }
        },
    }
}

/// The member named `key` of what the store answered, where it answered as asked.
pub open spec fn member_in(reply: Result<HttpReply<Json>, String>, key: Seq<char>) -> Result<
    Option<JsonView>,
    ErrorView,
> {
    match reply {
        Err(e) => Err(ErrorView::StoreNetwork(e@)),
        Ok(reply) => if !is_success(reply.status) {
            Ok(None)
        } else {
            match reply.parsed {
                Ok(body) => Ok(body@.get(key)),
                Err(e) => Err(ErrorView::Other(e@)),
            }
        },
    }
}

/// How many sessions a clean-up deleted.
pub open spec fn deleted_in(reply: Result<HttpReply<Json>, String>) -> Result<nat, ErrorView> {
    match reply {
        Err(e) => Err(ErrorView::StoreNetwork(e@)),
        Ok(reply) => if !is_success(reply.status) {
            Err(ErrorView::Store { status: reply.status, message: "Stale session cleanup failed"@ })
        } else {
            match reply.parsed {
                Ok(body) => Ok(
                    match body@.at("deleted"@).as_u64() {
                        Some(n) => n,
                        None => 0,
                    },
                ),
                Err(e) => Err(ErrorView::Other(e@)),
            }
        },
    }
}

/// The credentials that the store answered, where it answered as asked.
pub open spec fn auth_in(reply: Result<HttpReply<Json>, String>) -> Option<JsonView> {
    match reply {
        Err(_) => None,
        Ok(reply) => if !is_success(reply.status) {
            None
        } else {
            match reply.parsed {
                Ok(body) => Some(body@.at("auth"@)),
                Err(_) => Some(JsonView::Null),
            }
        },
    }
}

/// The address of the person that a sender was linked to, in what the store answered
/// to a code; empty where it names none.
pub open spec fn linked_in(reply: Result<HttpReply<Json>, String>) -> Result<Seq<char>, ErrorView> {
    match reply {
        Err(e) => Err(ErrorView::StoreNetwork(e@)),
        Ok(reply) => if !is_success(reply.status) {
            Err(ErrorView::Store { status: reply.status, message: reply.text@ })
        } else {
            match reply.parsed {
                Ok(body) => Ok(
                    match body@.at("user_email"@).as_text() {
                        Some(t) => t,
                        None => Seq::empty(),
                    },
                ),
                Err(e) => Err(ErrorView::Other(e@)),
            }
        },
    }
}

/// A history in JSON.
pub open spec fn history_json(history: Seq<MessageView>) -> JsonView {
    JsonView::Array(history.map_values(|m: MessageView| message_json(m)))
}

fn member_of(reply: Result<HttpReply<Json>, String>, key: &str) -> (r: BridgeResult<Option<Json>>)
    ensures
        match r {
            Ok(v) => member_in(reply, key@) == Ok::<Option<JsonView>, ErrorView>(opt_json_view(v)),
            Err(e) => member_in(reply, key@) == Err::<Option<JsonView>, ErrorView>(e@),
        },
{
    match reply {
        Err(e) => Err(BridgeError::StoreNetwork(e)),
        Ok(reply) => {
            if !success(reply.status) {
                return Ok(None);
            }
            match reply.parsed {
                Ok(body) => match body.get(key) {
                    Some(v) => Ok(Some(v.duplicate())),
                    None => Ok(None),
                },
                Err(e) => Err(BridgeError::Other(e)),
            }
        },
    }
}

// The client.

pub struct StoreClient {
    base_url: String,
    secret: String,
}

pub struct StoreView {
    pub base_url: Seq<char>,
    /// What proves to the store that a request comes from inside.
    pub secret: Seq<char>,
}

impl View for StoreClient {
    type V = StoreView;

    closed spec fn view(&self) -> StoreView {
        StoreView { base_url: self.base_url@, secret: self.secret@ }
    }
}

impl StoreView {
    /// A request that only the store's own services may make.
    pub open spec fn internal(self, method: Method, path: Seq<char>) -> RequestView {
        RequestView::bare(method, self.base_url + path).with_header(
            "X-Internal-Secret"@,
            self.secret,
        )
    }

    /// Where the session of a customer is kept.
    pub open spec fn session_path(tenant_id: Seq<char>, customer_phone: Seq<char>) -> Seq<char> {
        "/api/internal/whatsapp/session/"@ + encoded(tenant_id) + "/"@ + encoded(customer_phone)
    }

    /// The request for the person behind a sender.
    pub open spec fn identity_lookup(
        self,
        channel: Seq<char>,
        external_id: Seq<char>,
        tenant_id: Seq<char>,
    ) -> RequestView {
        self.internal(
            Method::Get,
            "/api/internal/messaging/identity/"@ + encoded(channel) + "/"@ + encoded(tenant_id)
                + "/"@ + encoded(external_id),
        )
    }

    /// The request that links a sender to the person who made a code.
    pub open spec fn code_redemption(
        self,
        channel: Seq<char>,
        external_id: Seq<char>,
        tenant_id: Seq<char>,
        code: Seq<char>,
    ) -> RequestView {
        self.internal(Method::Post, "/api/internal/messaging/link"@).with_body(
            JsonView::Object(
                seq![
                    ("channel"@, JsonView::Text(channel)),
                    ("external_id"@, JsonView::Text(external_id)),
                    ("tenant_id"@, JsonView::Text(tenant_id)),
                    ("code"@, JsonView::Text(code)),
                ],
            ),
        )
    }

    pub open spec fn session_load(
        self,
        tenant_id: Seq<char>,
        customer_phone: Seq<char>,
    ) -> RequestView {
        self.internal(Method::Get, StoreView::session_path(tenant_id, customer_phone))
    }

    pub open spec fn session_save(
        self,
        tenant_id: Seq<char>,
        customer_phone: Seq<char>,
        history: Seq<MessageView>,
    ) -> RequestView {
        self.internal(
            Method::Put,
            StoreView::session_path(tenant_id, customer_phone),
        ).with_body(JsonView::Object(seq![("history"@, history_json(history))]))
    }

    pub open spec fn failure_report(
        self,
        tenant_id: Seq<char>,
        customer_phone: Seq<char>,
        message_text: Seq<char>,
        error_type: Seq<char>,
        error_detail: Seq<char>,
    ) -> RequestView {
        self.internal(Method::Post, "/api/internal/whatsapp/failed-messages"@).with_body(
            JsonView::Object(
                seq![
                    ("tenant_id"@, JsonView::Text(tenant_id)),
                    ("customer_phone"@, JsonView::Text(customer_phone)),
                    ("message_text"@, JsonView::Text(message_text)),
                    ("error_type"@, JsonView::Text(error_type)),
                    ("error_detail"@, JsonView::Text(error_detail)),
                ],
            ),
        )
    }
}

impl StoreClient {
    /// A client of the store at `base_url`.
    pub fn new(base_url: String, secret: Option<String>) -> (r: StoreClient)
        ensures
            r@.base_url == base_url@,
            match secret {
                Some(s) => r@.secret == s@,
                None => r@.secret == Seq::<char>::empty(),
            },
    {
        let secret: String = match secret {
            Some(s) => s,
            None => String::new(),
        };
        StoreClient { base_url, secret }
    }

    fn internal(&self, method: Method, path: &str) -> (r: HttpRequest)
        ensures
            r@ == self@.internal(method, path@),
    {
        HttpRequest::bare(method, concat2(self.base_url.as_str(), path)).with_header(
            "X-Internal-Secret",
            self.secret.as_str(),
        )
    }

    fn session_path(tenant_id: &str, customer_phone: &str) -> (r: String)
        ensures
            r@ == StoreView::session_path(tenant_id@, customer_phone@),
    {
        let mut path: String = concat3(
            "/api/internal/whatsapp/session/",
            url_encode(tenant_id).as_str(),
            "/",
        );
        path.append(url_encode(customer_phone).as_str());
        path
    }

    /// The request for the channel of a phone number.
    pub fn get_channel(&self, phone_number_id: &str) -> (r: HttpRequest)
        ensures
            r@ == self@.internal(
                Method::Get,
                "/api/internal/whatsapp/channel/"@ + encoded(phone_number_id@),
            ),
    {
        let path: String = concat2(
            "/api/internal/whatsapp/channel/",
            url_encode(phone_number_id).as_str(),
        );
        self.internal(Method::Get, path.as_str())
    }

    /// The request for the channel of a tenant.
    pub fn get_channel_by_tenant(&self, tenant_id: &str) -> (r: HttpRequest)
        ensures
            r@ == self@.internal(
                Method::Get,
                "/api/internal/whatsapp/channel/by-tenant/"@ + encoded(tenant_id@),
            ),
    {
        let path: String = concat2(
            "/api/internal/whatsapp/channel/by-tenant/",
            url_encode(tenant_id).as_str(),
        );
        self.internal(Method::Get, path.as_str())
    }

    /// The request for the channel of a bot on a messaging platform.
    pub fn get_messaging_channel(&self, channel: &str, bot_id: &str) -> (r: HttpRequest)
        ensures
            r@ == self@.internal(
                Method::Get,
                "/api/internal/messaging/channel/"@ + encoded(channel@) + "/"@ + encoded(bot_id@),
            ),
    {
        let mut path: String = concat3(
            "/api/internal/messaging/channel/",
            url_encode(channel).as_str(),
            "/",
        );
        path.append(url_encode(bot_id).as_str());
        self.internal(Method::Get, path.as_str())
    }

    /// The request for the person behind a sender.
    pub fn resolve_identity(&self, channel: &str, external_id: &str, tenant_id: &str) -> (r:
        HttpRequest)
        ensures
            r@ == self@.identity_lookup(channel@, external_id@, tenant_id@),
    {
        let mut path: String = concat3(
            "/api/internal/messaging/identity/",
            url_encode(channel).as_str(),
            "/",
        );
        path.append(url_encode(tenant_id).as_str());
        path.append("/");
        path.append(url_encode(external_id).as_str());
        self.internal(Method::Get, path.as_str())
    }

    /// The request that links a sender to the person who made a code.
    pub fn redeem_link_code(
        &self,
        channel: &str,
        external_id: &str,
        tenant_id: &str,
        code: &str,
    ) -> (r: HttpRequest)
        ensures
            r@ == self@.code_redemption(channel@, external_id@, tenant_id@, code@),
    {
        let mut m: Vec<Member> = Vec::new();
        m.push(member("channel", Json::text(channel)));
        m.push(member("external_id", Json::text(external_id)));
        m.push(member("tenant_id", Json::text(tenant_id)));
        m.push(member("code", Json::text(code)));
        assert(member_views(m@) =~= seq![
            ("channel"@, JsonView::Text(channel@)),
            ("external_id"@, JsonView::Text(external_id@)),
            ("tenant_id"@, JsonView::Text(tenant_id@)),
            ("code"@, JsonView::Text(code@)),
        ]);
        self.internal(Method::Post, "/api/internal/messaging/link").with_body(Json::object(m))
    }

    /// What came of a code.
    pub fn code_redeemed(reply: Result<HttpReply<Json>, String>) -> (r: BridgeResult<String>)
        ensures
            match r {
                Ok(email) => linked_in(reply) == Ok::<Seq<char>, ErrorView>(email@),
                Err(e) => linked_in(reply) == Err::<Seq<char>, ErrorView>(e@),
            },
    {
        match reply {
            Err(e) => Err(BridgeError::StoreNetwork(e)),
            Ok(reply) => {
                if !success(reply.status) {
                    return Err(BridgeError::Store { status: reply.status, message: reply.text });
                }
                match reply.parsed {
                    Ok(body) => match body.text_at("user_email") {
                        Some(t) => Ok(t.to_owned()),
                        None => Ok(String::new()),
                    },
                    Err(e) => Err(BridgeError::Other(e)),
                }
            },
        }
    }

    /// What a look-up found.
    pub fn found<T>(reply: Result<HttpReply<T>, String>) -> (r: BridgeResult<Option<T>>)
        ensures
            match r {
                Ok(v) => found_in(reply) == Ok::<Option<T>, ErrorView>(v),
                Err(e) => found_in(reply) == Err::<Option<T>, ErrorView>(e@),
            },
    {
        match reply {
            Err(e) => Err(BridgeError::StoreNetwork(e)),
            Ok(reply) => {
                if reply.status == 404 {
                    return Ok(None);
                }
                if !success(reply.status) {
                    return Err(BridgeError::Store { status: reply.status, message: reply.text });
                }
                match reply.parsed {
                    Ok(v) => Ok(Some(v)),
                    Err(e) => Err(BridgeError::Other(e)),
                }
            },
        }
    }

    /// The request for the history of a customer.
    pub fn get_session(&self, tenant_id: &str, customer_phone: &str) -> (r: HttpRequest)
        ensures
            r@ == self@.session_load(tenant_id@, customer_phone@),
    {
        self.internal(Method::Get, Self::session_path(tenant_id, customer_phone).as_str())
    }

    /// The history in what the store answered. There is none where it does not answer
    /// as asked: the conversation then starts afresh.
    pub fn session_loaded(reply: Result<HttpReply<Json>, String>) -> (r: BridgeResult<Option<Json>>)
        ensures
            match r {
                Ok(v) => member_in(reply, "history"@) == Ok::<Option<JsonView>, ErrorView>(
                    opt_json_view(v),
                ),
                Err(e) => member_in(reply, "history"@) == Err::<Option<JsonView>, ErrorView>(e@),
            },
    {
        member_of(reply, "history")
    }

    /// The history that was read. It starts afresh where there is none, and where what
    /// there is could not be read as one.
    pub fn history_read(read: Option<Result<Vec<ClaudeMessage>, String>>) -> (r: Vec<ClaudeMessage>)
        ensures
            match read {
                Some(Ok(history)) => r == history,
                _ => r@ == Seq::<ClaudeMessage>::empty(),
            },
    {
        match read {
            Some(Ok(history)) => history,
            _ => Vec::new(),
        }
    }

    /// The request that saves the history of a customer.
    pub fn save_session(
        &self,
        tenant_id: &str,
        customer_phone: &str,
        history: &Vec<ClaudeMessage>,
    ) -> (r: HttpRequest)
        ensures
            r@ == self@.session_save(tenant_id@, customer_phone@, message_views(history@)),
    {
        let mut m: Vec<Member> = Vec::new();
        m.push(member("history", messages_value(history)));
        assert(member_views(m@) =~= seq![("history"@, history_json(message_views(history@)))]);
        self.internal(
            Method::Put,
            Self::session_path(tenant_id, customer_phone).as_str(),
        ).with_body(Json::object(m))
    }

    /// What came of saving a history: only that the store was not reached counts.
    pub fn session_saved<T>(reply: Result<HttpReply<T>, String>) -> (r: BridgeResult<()>)
        ensures
            match reply {
                Ok(_) => r is Ok,
                Err(e) => r matches Err(f) && f@ == ErrorView::StoreNetwork(e@),
            },
    {
        match reply {
            Ok(_) => Ok(()),
            Err(e) => Err(BridgeError::StoreNetwork(e)),
        }
    }

    /// The request for the tools of a tenant, which anyone may make.
    pub fn get_tools(&self, tenant_id: &str) -> (r: HttpRequest)
        ensures
            r@ == RequestView::bare(
                Method::Get,
                self@.base_url + "/api/mcp-tools/"@ + encoded(tenant_id@),
            ),
    {
        let url: String = concat3(
            self.base_url.as_str(),
            "/api/mcp-tools/",
            url_encode(tenant_id).as_str(),
        );
        HttpRequest::bare(Method::Get, url)
    }

    /// The tools in what the store answered, where it answered as asked.
    pub fn tools_listed(reply: Result<HttpReply<Json>, String>) -> (r: BridgeResult<Option<Json>>)
        ensures
            match r {
                Ok(v) => member_in(reply, "tools"@) == Ok::<Option<JsonView>, ErrorView>(
                    opt_json_view(v),
                ),
                Err(e) => member_in(reply, "tools"@) == Err::<Option<JsonView>, ErrorView>(e@),
            },
    {
        member_of(reply, "tools")
    }

    /// The request that deletes the sessions older than `days` days.
    pub fn cleanup_stale_sessions(&self, days: i64) -> (r: HttpRequest)
        ensures
            r@ == self@.internal(
                Method::Delete,
                "/api/internal/whatsapp/sessions/stale?days="@ + signed_decimal_of(days as int),
            ),
    {
        let path: String = concat2(
            "/api/internal/whatsapp/sessions/stale?days=",
            signed_decimal(days).as_str(),
        );
        self.internal(Method::Delete, path.as_str())
    }

    /// How many sessions a clean-up deleted.
    pub fn sessions_cleaned(reply: Result<HttpReply<Json>, String>) -> (r: BridgeResult<u64>)
        ensures
            match r {
                Ok(n) => deleted_in(reply) == Ok::<nat, ErrorView>(n as nat),
                Err(e) => deleted_in(reply) == Err::<nat, ErrorView>(e@),
            },
    {
        match reply {
            Err(e) => Err(BridgeError::StoreNetwork(e)),
            Ok(reply) => {
                if !success(reply.status) {
                    return Err(
                        BridgeError::Store {
                            status: reply.status,
                            message: "Stale session cleanup failed".to_owned(),
                        },
                    );
                }
                match reply.parsed {
                    Ok(body) => {
                        let n: Option<u64> = match body.get("deleted") {
                            Some(v) => v.as_u64(),
                            None => None,
                        };
                        match n {
                            Some(n) => Ok(n),
                            None => Ok(0),
                        }
                    },
                    Err(e) => Err(BridgeError::Other(e)),
                }
            },
        }
    }

    /// The request for the credentials that a tenant has for services further on.
    pub fn get_downstream_auth(&self, tenant_id: &str) -> (r: HttpRequest)
        ensures
            r@ == self@.internal(
                Method::Get,
                "/api/tenant/downstream-auth/"@ + encoded(tenant_id@),
            ),
    {
        let path: String = concat2(
            "/api/tenant/downstream-auth/",
            url_encode(tenant_id).as_str(),
        );
        self.internal(Method::Get, path.as_str())
    }

    /// The credentials that the store answered, where it answered as asked.
    pub fn downstream_auth(reply: Result<HttpReply<Json>, String>) -> (r: Option<Json>)
        ensures
            opt_json_view(r) == auth_in(reply),
    {
        match reply {
            Err(_) => None,
            Ok(reply) => {
                if !success(reply.status) {
                    return None;
                }
                match reply.parsed {
                    Ok(body) => match body.get("auth") {
                        Some(v) => Some(v.duplicate()),
                        None => Some(Json::Null),
                    },
                    Err(_) => Some(Json::Null),
                }
            },
        }
    }

    /// The request that records a message which could not be handled. Whatever comes
    /// of it is of no consequence to the message.
    pub fn log_failed_message(
        &self,
        tenant_id: &str,
        customer_phone: &str,
        message_text: &str,
        error_type: &str,
        error_detail: &str,
    ) -> (r: HttpRequest)
        ensures
            r@ == self@.failure_report(
                tenant_id@,
                customer_phone@,
                message_text@,
                error_type@,
                error_detail@,
            ),
    {
        let mut m: Vec<Member> = Vec::new();
        m.push(member("tenant_id", Json::text(tenant_id)));
        m.push(member("customer_phone", Json::text(customer_phone)));
        m.push(member("message_text", Json::text(message_text)));
        m.push(member("error_type", Json::text(error_type)));
        m.push(member("error_detail", Json::text(error_detail)));
        assert(member_views(m@) =~= seq![
            ("tenant_id"@, JsonView::Text(tenant_id@)),
            ("customer_phone"@, JsonView::Text(customer_phone@)),
            ("message_text"@, JsonView::Text(message_text@)),
            ("error_type"@, JsonView::Text(error_type@)),
            ("error_detail"@, JsonView::Text(error_detail@)),
        ]);
        self.internal(Method::Post, "/api/internal/whatsapp/failed-messages").with_body(
            Json::object(m),
        )
    }
}

// Laws.

/// The characters that an encoded text is made of.
pub open spec fn is_segment_char(c: char) -> bool {
    c == '%' || (c as u32 <= 0x7f && is_unreserved(c as u8))
}

proof fn lemma_percent_chars(bytes: Seq<u8>, i: int)
    requires
        0 <= i < percent_all(bytes).len(),
    ensures
        is_segment_char(percent_all(bytes)[i]),
    decreases bytes.len(),
{
    let head = percent(bytes[0]);
    if i >= head.len() {
        lemma_percent_chars(bytes.drop_first(), i - head.len());
    }
}

proof fn lemma_percent_injective(a: Seq<u8>, b: Seq<u8>)
    requires
        percent_all(a) == percent_all(b),
    ensures
        a == b,
    decreases a.len(),
{
    let s = percent_all(a);
    if a.len() == 0 {
        if b.len() > 0 {
            assert(percent_all(b).len() >= percent(b[0]).len());
        }
        assert(a =~= b);
    } else {
        assert(s.len() >= percent(a[0]).len());
        assert(b.len() > 0);
        let n = percent(a[0]).len() as int;
        assert(s[0] == percent(a[0])[0]);
        assert(s[0] == percent(b[0])[0]);
        assert(is_unreserved(a[0]) == is_unreserved(b[0]));
        if !is_unreserved(a[0]) {
            assert(s[1] == percent(a[0])[1] && s[1] == percent(b[0])[1]);
            assert(s[2] == percent(a[0])[2] && s[2] == percent(b[0])[2]);
            assert(a[0] / 16 == b[0] / 16);
            assert(a[0] % 16 == b[0] % 16);
        }
        assert(a[0] == b[0]);
        assert(percent_all(a.drop_first()) =~= s.skip(n));
        assert(percent_all(b.drop_first()) =~= s.skip(n));
        lemma_percent_injective(a.drop_first(), b.drop_first());
        assert(a =~= seq![a[0]] + a.drop_first());
        assert(b =~= seq![b[0]] + b.drop_first());
    }
}

/// Encoding stays within one segment of a path: nothing in an encoded text ends the
/// segment or begins a query.
pub proof fn encoding_stays_in_its_segment(s: Seq<char>, i: int)
    requires
        0 <= i < encoded(s).len(),
    ensures
        is_segment_char(encoded(s)[i]),
        encoded(s)[i] != '/' && encoded(s)[i] != '?' && encoded(s)[i] != '#',
{
    lemma_percent_chars(encode_utf8(s), i);
}

/// Encoding loses nothing: two texts are never encoded alike.
pub proof fn encoding_loses_nothing(a: Seq<char>, b: Seq<char>)
    requires
        encoded(a) == encoded(b),
    ensures
        a == b,
{
    lemma_percent_injective(encode_utf8(a), encode_utf8(b));
    encode_utf8_decode_utf8(a);
    encode_utf8_decode_utf8(b);
}

/// Every customer of every tenant has a session of their own.
pub proof fn sessions_are_kept_apart(
    tenant1: Seq<char>,
    phone1: Seq<char>,
    tenant2: Seq<char>,
    phone2: Seq<char>,
)
    requires
        StoreView::session_path(tenant1, phone1) == StoreView::session_path(tenant2, phone2),
    ensures
        tenant1 == tenant2,
        phone1 == phone2,
{
    let k = "/api/internal/whatsapp/session/"@.len() as int;
    let path = StoreView::session_path(tenant1, phone1);
    let (t1, t2) = (encoded(tenant1), encoded(tenant2));
    let (p1, p2) = (encoded(phone1), encoded(phone2));
    reveal_strlit("/");
    let rest = path.skip(k);
    assert(rest =~= t1 + "/"@ + p1);
    assert(rest =~= t2 + "/"@ + p2);
    assert(rest[t1.len() as int] == '/');
    assert(rest[t2.len() as int] == '/');
    if t1.len() < t2.len() {
        assert(rest[t1.len() as int] == t2[t1.len() as int]);
        encoding_stays_in_its_segment(tenant2, t1.len() as int);
    }
    if t2.len() < t1.len() {
        assert(rest[t2.len() as int] == t1[t2.len() as int]);
        encoding_stays_in_its_segment(tenant1, t2.len() as int);
    }
    assert(t1 =~= rest.take(t1.len() as int));
    assert(t2 =~= rest.take(t2.len() as int));
    assert(p1 =~= rest.skip(t1.len() as int + 1));
    assert(p2 =~= rest.skip(t2.len() as int + 1));
    encoding_loses_nothing(tenant1, tenant2);
    encoding_loses_nothing(phone1, phone2);
}

/// A session is loaded from where it was saved, and what was saved has the history
/// where loading looks for it.
pub proof fn sessions_are_loaded_where_saved(
    store: StoreView,
    tenant_id: Seq<char>,
    customer_phone: Seq<char>,
    history: Seq<MessageView>,
)
    ensures
        ({
            let save = store.session_save(tenant_id, customer_phone, history);
            let load = store.session_load(tenant_id, customer_phone);
            &&& load.url == save.url
            &&& save.body is Some
            &&& save.body->0.get("history"@) == Some(history_json(history))
        }),
{
    reveal_with_fuel(lookup, 2);
}

/// What the store is asked within the house goes to its own address and carries the
/// secret.
pub proof fn inner_requests_carry_the_secret(store: StoreView, method: Method, path: Seq<char>)
    ensures
        ({
            let r = store.internal(method, path);
            &&& r.method == method
            &&& r.url == store.base_url + path
            &&& r.headers.len() == 1
            &&& r.headers[0] == ("X-Internal-Secret"@, store.secret)
            &&& r.body is None
        }),
{
}

/// A look-up finds nothing exactly on a 404 and something exactly on a two hundred that
/// could be read. Every other status is told with the store's own words.
pub proof fn only_a_404_means_unknown<T>(reply: HttpReply<T>)
    ensures
        ({
            let found = found_in(Ok::<HttpReply<T>, String>(reply));
            &&& (found is Ok && found->Ok_0 is None) <==> reply.status == 404
            &&& (found is Ok && found->Ok_0 is Some) <==> (reply.status / 100 == 2
                && reply.parsed is Ok)
            &&& found is Ok && found->Ok_0 is Some ==> found->Ok_0->0 == reply.parsed->Ok_0
            &&& reply.status != 404 && reply.status / 100 != 2 ==> found == Err::<
                Option<T>,
                ErrorView,
            >(ErrorView::Store { status: reply.status, message: reply.text@ })
        }),
{
}

/// Of an answer in the two hundreds the member that was asked for is taken as it is. Any
/// other status counts as having none, and is no failure.
pub proof fn a_member_is_taken_as_it_is(reply: HttpReply<Json>, key: Seq<char>)
    ensures
        reply.status / 100 == 2 && reply.parsed is Ok ==> member_in(
            Ok::<HttpReply<Json>, String>(reply),
            key,
        ) == Ok::<Option<JsonView>, ErrorView>(reply.parsed->Ok_0@.get(key)),
        reply.status / 100 != 2 ==> member_in(Ok::<HttpReply<Json>, String>(reply), key) == Ok::<
            Option<JsonView>,
            ErrorView,
        >(None),
        reply.status / 100 == 2 && reply.parsed is Err ==> member_in(
            Ok::<HttpReply<Json>, String>(reply),
            key,
        ) is Err,
{
}

/// A clean-up deleted as many sessions as the store says; a store that gives no number
/// says none.
pub proof fn deletions_are_told_by_the_store(reply: HttpReply<Json>, n: nat)
    requires
        reply.parsed is Ok,
    ensures
        reply.status / 100 == 2 && n <= 0xffff_ffff_ffff_ffff && reply.parsed->Ok_0@.at("deleted"@)
            == JsonView::Number(decimal_of(n)) ==> deleted_in(Ok::<HttpReply<Json>, String>(reply))
            == Ok::<nat, ErrorView>(n),
        reply.status / 100 == 2 && reply.parsed->Ok_0@.at("deleted"@) == JsonView::Null
            ==> deleted_in(Ok::<HttpReply<Json>, String>(reply)) == Ok::<nat, ErrorView>(0),
        reply.status / 100 != 2 ==> deleted_in(Ok::<HttpReply<Json>, String>(reply)) is Err,
{
    whole_numbers_are_read(n);
}

/// A code links the sender to whom the store names, and only on a two hundred. What the
/// store says of a code that it refuses is kept word for word.
pub proof fn a_code_links_to_whom_the_store_names(reply: HttpReply<Json>, email: Seq<char>)
    ensures
        reply.status / 100 == 2 && reply.parsed is Ok && reply.parsed->Ok_0@.at("user_email"@)
            == JsonView::Text(email) ==> linked_in(Ok::<HttpReply<Json>, String>(reply)) == Ok::<
            Seq<char>,
            ErrorView,
        >(email),
        reply.status / 100 != 2 ==> linked_in(Ok::<HttpReply<Json>, String>(reply)) == Err::<
            Seq<char>,
            ErrorView,
        >(ErrorView::Store { status: reply.status, message: reply.text@ }),
{
}

/// Credentials are had only from a two hundred, and as the store gives them.
pub proof fn credentials_are_taken_as_they_are(reply: HttpReply<Json>)
    ensures
        reply.status / 100 == 2 && reply.parsed is Ok ==> auth_in(
            Ok::<HttpReply<Json>, String>(reply),
        ) == Some(reply.parsed->Ok_0@.at("auth"@)),
        reply.status / 100 != 2 ==> auth_in(Ok::<HttpReply<Json>, String>(reply)) is None,
{
}

/// The record of a failed message holds whose it was, what it said and what went wrong.
pub proof fn a_failure_record_is_complete(
    store: StoreView,
    tenant_id: Seq<char>,
    customer_phone: Seq<char>,
    message_text: Seq<char>,
    error_type: Seq<char>,
    error_detail: Seq<char>,
)
    ensures
        ({
            let r = store.failure_report(
                tenant_id,
                customer_phone,
                message_text,
                error_type,
                error_detail,
            );
            &&& r.method == Method::Post
            &&& r.url == store.base_url + "/api/internal/whatsapp/failed-messages"@
            &&& r.body is Some
            &&& r.body->0.at("tenant_id"@) == JsonView::Text(tenant_id)
            &&& r.body->0.at("customer_phone"@) == JsonView::Text(customer_phone)
            &&& r.body->0.at("message_text"@) == JsonView::Text(message_text)
            &&& r.body->0.at("error_type"@) == JsonView::Text(error_type)
            &&& r.body->0.at("error_detail"@) == JsonView::Text(error_detail)
        }),
{
    reveal_strlit("tenant_id");
    reveal_strlit("customer_phone");
    reveal_strlit("message_text");
    reveal_strlit("error_type");
    reveal_strlit("error_detail");
    assert("tenant_id"@.len() == 9 && "customer_phone"@.len() == 14 && "message_text"@.len() == 12
        && "error_type"@.len() == 10 && "error_detail"@.len() == 12);
    assert("message_text"@[0] != "error_detail"@[0]);
    let m = store.failure_report(
        tenant_id,
        customer_phone,
        message_text,
        error_type,
        error_detail,
    ).body->0->Object_0;
    members_are_found_by_name(m, "tenant_id"@, 0);
    members_are_found_by_name(m, "customer_phone"@, 1);
    members_are_found_by_name(m, "message_text"@, 2);
    members_are_found_by_name(m, "error_type"@, 3);
    members_are_found_by_name(m, "error_detail"@, 4);
}

/// A code is redeemed for the sender who sent it, at the tenant they wrote to.
pub proof fn a_code_is_redeemed_for_its_sender(
    store: StoreView,
    channel: Seq<char>,
    external_id: Seq<char>,
    tenant_id: Seq<char>,
    code: Seq<char>,
)
    ensures
        ({
            let r = store.code_redemption(channel, external_id, tenant_id, code);
            &&& r.method == Method::Post
            &&& r.body is Some
            &&& r.body->0.at("channel"@) == JsonView::Text(channel)
            &&& r.body->0.at("external_id"@) == JsonView::Text(external_id)
            &&& r.body->0.at("tenant_id"@) == JsonView::Text(tenant_id)
            &&& r.body->0.at("code"@) == JsonView::Text(code)
        }),
{
    reveal_strlit("channel");
    reveal_strlit("external_id");
    reveal_strlit("tenant_id");
    reveal_strlit("code");
    assert("channel"@.len() == 7 && "external_id"@.len() == 11 && "tenant_id"@.len() == 9
        && "code"@.len() == 4);
    let m = store.code_redemption(channel, external_id, tenant_id, code).body->0->Object_0;
    members_are_found_by_name(m, "channel"@, 0);
    members_are_found_by_name(m, "external_id"@, 1);
    members_are_found_by_name(m, "tenant_id"@, 2);
    members_are_found_by_name(m, "code"@, 3);
}

proof fn lemma_first_segment(t1: Seq<char>, rest1: Seq<char>, t2: Seq<char>, rest2: Seq<char>)
    requires
        encoded(t1) + "/"@ + rest1 == encoded(t2) + "/"@ + rest2,
    ensures
        t1 == t2,
        rest1 == rest2,
{
    reveal_strlit("/");
    let (e1, e2) = (encoded(t1), encoded(t2));
    let all = e1 + "/"@ + rest1;
    assert(all =~= e2 + "/"@ + rest2);
    assert(all[e1.len() as int] == '/');
    assert((e2 + "/"@ + rest2)[e2.len() as int] == '/');
    if e1.len() < e2.len() {
        assert((e2 + "/"@ + rest2)[e1.len() as int] == e2[e1.len() as int]);
        encoding_stays_in_its_segment(t2, e1.len() as int);
    }
    if e2.len() < e1.len() {
        assert(all[e2.len() as int] == e1[e2.len() as int]);
        encoding_stays_in_its_segment(t1, e2.len() as int);
    }
    assert(e1 =~= all.take(e1.len() as int));
    assert(e2 =~= all.take(e1.len() as int));
    assert(rest1 =~= all.skip(e1.len() as int + 1));
    assert(rest2 =~= all.skip(e1.len() as int + 1));
    encoding_loses_nothing(t1, t2);
}

proof fn lemma_behind_the_lead(
    base: Seq<char>,
    p: Seq<char>,
    a: Seq<char>,
    sep: Seq<char>,
    b: Seq<char>,
    c: Seq<char>,
)
    ensures
        (base + (p + a + sep + b + sep + c)).skip(base.len() + p.len() as int) == a + sep + (b + sep
            + c),
{
    let k = base.len() + p.len() as int;
    let rest = a + sep + (b + sep + c);
    assert(p + a + sep + b + sep + c =~= p + rest);
    assert((base + (p + rest)).skip(k) =~= rest);
}

/// No two senders are looked up at the same address: the person behind one is never taken
/// for the person behind another.
pub proof fn senders_are_looked_up_apart(
    store: StoreView,
    channel1: Seq<char>,
    id1: Seq<char>,
    tenant1: Seq<char>,
    channel2: Seq<char>,
    id2: Seq<char>,
    tenant2: Seq<char>,
)
    requires
        store.identity_lookup(channel1, id1, tenant1).url == store.identity_lookup(
            channel2,
            id2,
            tenant2,
        ).url,
    ensures
        channel1 == channel2,
        id1 == id2,
        tenant1 == tenant2,
{
    let tail1 = encoded(tenant1) + "/"@ + encoded(id1);
    let tail2 = encoded(tenant2) + "/"@ + encoded(id2);
    let p = "/api/internal/messaging/identity/"@;
    lemma_behind_the_lead(store.base_url, p, encoded(channel1), "/"@, encoded(tenant1), encoded(id1));
    lemma_behind_the_lead(store.base_url, p, encoded(channel2), "/"@, encoded(tenant2), encoded(id2));
    lemma_first_segment(channel1, tail1, channel2, tail2);
    lemma_first_segment(tenant1, encoded(id1), tenant2, encoded(id2));
    encoding_loses_nothing(id1, id2);
}

/// Whatever the store is asked, what could not be reached and what could not be read
/// are told apart, each with its reason.
pub proof fn a_lost_answer_says_why(reply: HttpReply<Json>, e: String, key: Seq<char>)
    ensures
        found_in(Err::<HttpReply<Json>, String>(e)) == Err::<Option<Json>, ErrorView>(
            ErrorView::StoreNetwork(e@),
        ),
        member_in(Err::<HttpReply<Json>, String>(e), key) == Err::<Option<JsonView>, ErrorView>(
            ErrorView::StoreNetwork(e@),
        ),
        deleted_in(Err::<HttpReply<Json>, String>(e)) == Err::<nat, ErrorView>(
            ErrorView::StoreNetwork(e@),
        ),
        linked_in(Err::<HttpReply<Json>, String>(e)) == Err::<Seq<char>, ErrorView>(
            ErrorView::StoreNetwork(e@),
        ),
        reply.status / 100 == 2 && reply.parsed is Err ==> {
            let unread = ErrorView::Other(reply.parsed->Err_0@);
            let got = Ok::<HttpReply<Json>, String>(reply);
            &&& found_in(got) == Err::<Option<Json>, ErrorView>(unread)
            &&& member_in(got, key) == Err::<Option<JsonView>, ErrorView>(unread)
            &&& deleted_in(got) == Err::<nat, ErrorView>(unread)
            &&& linked_in(got) == Err::<Seq<char>, ErrorView>(unread)
        },
{
}

/// A refusal is told with its status: in the store's own words where a channel or a link
/// was asked for. A failed clean-up is told as such.
pub proof fn a_refusal_says_its_status(reply: HttpReply<Json>)
    requires
        reply.status / 100 != 2,
    ensures
        ({
            let got = Ok::<HttpReply<Json>, String>(reply);
            let told = ErrorView::Store { status: reply.status, message: reply.text@ };
            &&& linked_in(got) == Err::<Seq<char>, ErrorView>(told)
            &&& reply.status != 404 ==> found_in(got) == Err::<Option<Json>, ErrorView>(told)
            &&& deleted_in(got) == Err::<nat, ErrorView>(
                (ErrorView::Store {
                    status: reply.status,
                    message: "Stale session cleanup failed"@,
                }),
            )
        }),
{
}

/// Credentials that could not be read are none that hold anything, but the tenant stays
/// known. A store that could not be reached knows nothing.
pub proof fn unread_credentials_are_empty(reply: HttpReply<Json>, e: String)
    ensures
        reply.status / 100 == 2 && reply.parsed is Err ==> auth_in(
            Ok::<HttpReply<Json>, String>(reply),
        ) == Some(JsonView::Null),
        auth_in(Err::<HttpReply<Json>, String>(e)) is None,
{
}

/// A history is saved message by message, in order, each with its role and content.
pub proof fn a_history_is_saved_in_full(history: Seq<MessageView>, k: int)
    ensures
        history_json(history) is Array,
        history_json(history)->Array_0.len() == history.len(),
        0 <= k < history.len() ==> {
            let m = history_json(history)->Array_0[k];
            &&& m.at("role"@) == JsonView::Text(history[k].role)
            &&& m.at("content"@) == history[k].content
        },
{
    if 0 <= k < history.len() {
        reveal_strlit("role");
        reveal_strlit("content");
        assert("role"@.len() != "content"@.len());
        let members = message_json(history[k])->Object_0;
        members_are_found_by_name(members, "role"@, 0);
        members_are_found_by_name(members, "content"@, 1);
    }
}

/// Loading a session fetches and saving one replaces; neither asks the store anything
/// else.
pub proof fn sessions_are_fetched_and_replaced(
    store: StoreView,
    tenant_id: Seq<char>,
    customer_phone: Seq<char>,
    history: Seq<MessageView>,
)
    ensures
        store.session_load(tenant_id, customer_phone).method == Method::Get,
        store.session_load(tenant_id, customer_phone).body is None,
        store.session_save(tenant_id, customer_phone, history).method == Method::Put,
{
}

/// Letters, digits and `-`, `.`, `_`, `~` stand for themselves. Any other byte is written
/// as a percent sign and its two digits in base sixteen, in capitals.
pub proof fn bytes_are_escaped_by_their_digits(b: u8)
    ensures
        ({
            let plain = "ABCDEFGHIJKLMNOPQRSTUVWXYZabcdefghijklmnopqrstuvwxyz0123456789-._~"@;
            let digits = "0123456789ABCDEF"@;
            if exists|i: int| 0 <= i < 66 && #[trigger] plain[i] as u32 == b {
                percent(b) == seq![b as char]
            } else {
                percent(b) == seq!['%', digits[(b / 16) as int], digits[(b % 16) as int]]
            }
        }),
{
    reveal_strlit("ABCDEFGHIJKLMNOPQRSTUVWXYZabcdefghijklmnopqrstuvwxyz0123456789-._~");
    reveal_strlit("0123456789ABCDEF");
    lemma_plain_bytes(b);
    lemma_capital_digits((b / 16) as u8);
    lemma_capital_digits((b % 16) as u8);
}

proof fn lemma_capital_digits(d: u8)
    requires
        d < 16,
    ensures
        hex_digit(d) == "0123456789ABCDEF"@[d as int],
{
    reveal_strlit("0123456789ABCDEF");
}

proof fn lemma_plain_bytes(b: u8)
    ensures
        ({
            let plain = "ABCDEFGHIJKLMNOPQRSTUVWXYZabcdefghijklmnopqrstuvwxyz0123456789-._~"@;
            is_unreserved(b) <==> exists|i: int| 0 <= i < 66 && #[trigger] plain[i] as u32 == b
        }),
{
    reveal_strlit("ABCDEFGHIJKLMNOPQRSTUVWXYZabcdefghijklmnopqrstuvwxyz0123456789-._~");
    let plain = "ABCDEFGHIJKLMNOPQRSTUVWXYZabcdefghijklmnopqrstuvwxyz0123456789-._~"@;
    if is_unreserved(b) {
        let i: int = if 0x41 <= b <= 0x5a {
            b - 0x41
        } else if 0x61 <= b <= 0x7a {
            b - 0x61 + 26
        } else if 0x30 <= b <= 0x39 {
            b - 0x30 + 52
        } else if b == 0x2d {
            62
        } else if b == 0x2e {
            63
        } else if b == 0x5f {
            64
        } else {
            65
        };
        assert(plain[i] as u32 == b);
    }
}

proof fn lemma_percent_all_concat(a: Seq<u8>, b: Seq<u8>)
    ensures
        percent_all(a + b) == percent_all(a) + percent_all(b),
    decreases a.len(),
{
    if a.len() == 0 {
        assert(a + b =~= b);
        assert(percent_all(a) + percent_all(b) =~= percent_all(b));
    } else {
        lemma_percent_all_concat(a.drop_first(), b);
        assert((a + b).drop_first() =~= a.drop_first() + b);
        assert(percent_all(a + b) =~= percent_all(a) + percent_all(b));
    }
}

/// A text is escaped byte by byte: what stands behind something else is escaped behind
/// it, whatever that is.
pub proof fn escapes_add_up(a: Seq<u8>, b: Seq<u8>, c: u8)
    ensures
        percent_all(a + b) == percent_all(a) + percent_all(b),
        percent_all(seq![c]) == percent(c),
        percent_all(Seq::empty()).len() == 0,
{
    lemma_percent_all_concat(a, b);
    reveal_with_fuel(percent_all, 2);
    assert(seq![c].drop_first() =~= Seq::empty());
    assert(percent_all(seq![c]) =~= percent(c));
}

} // verus!
