//! Requests to be sent and replies that came back, as plain data.

use vstd::prelude::*;

use crate::json::{Json, JsonView};
use crate::text::opt_view;

verus! {

#[derive(Debug, Clone, Copy, PartialEq, Eq, Structural)]
pub enum Method {
    Get,
    Post,
    Put,
    Delete,
}

/// A header of a request.
#[derive(Debug)]
pub struct Header {
    pub name: String,
    pub value: String,
}

/// A request to be sent.
#[derive(Debug)]
pub struct HttpRequest {
    pub method: Method,
    pub url: String,
    pub headers: Vec<Header>,
    /// The token of an `Authorization: Bearer` header.
    pub bearer: Option<String>,
    /// A body, sent as JSON.
    pub body: Option<Json>,
    /// How many seconds to wait for the reply, where that is limited.
    pub timeout_s: Option<u64>,
}

/// A request as contracts speak of it.
pub struct RequestView {
    pub method: Method,
    pub url: Seq<char>,
    pub headers: Seq<(Seq<char>, Seq<char>)>,
    pub bearer: Option<Seq<char>>,
    pub body: Option<JsonView>,
    pub timeout_s: Option<u64>,
}

/// The names and values of headers.
pub open spec fn header_views(headers: Seq<Header>) -> Seq<(Seq<char>, Seq<char>)> {
    headers.map_values(|h: Header| (h.name@, h.value@))
}

/// The view of an optional JSON value.
pub open spec fn opt_json_view(j: Option<Json>) -> Option<JsonView> {
    match j {
        Some(v) => Some(v@),
        None => None,
    }
}

impl View for HttpRequest {
    type V = RequestView;

    open spec fn view(&self) -> RequestView {
        RequestView {
            method: self.method,
            url: self.url@,
            headers: header_views(self.headers@),
            bearer: opt_view(self.bearer),
            body: opt_json_view(self.body),
            timeout_s: self.timeout_s,
        }
    }
}

impl RequestView {
    /// A request with nothing but a method and an address.
    pub open spec fn bare(method: Method, url: Seq<char>) -> RequestView {
        RequestView {
            method,
            url,
            headers: Seq::empty(),
            bearer: None,
            body: None,
            timeout_s: None,
        }
    }

    /// The same request with one more header.
    pub open spec fn with_header(self, name: Seq<char>, value: Seq<char>) -> RequestView {
        RequestView { headers: self.headers.push((name, value)), ..self }
    }

    /// The same request with a bearer token.
    pub open spec fn with_bearer(self, token: Seq<char>) -> RequestView {
        RequestView { bearer: Some(token), ..self }
    }

    /// The same request with a JSON body.
    pub open spec fn with_body(self, body: JsonView) -> RequestView {
        RequestView { body: Some(body), ..self }
    }

    /// The same request with a limit on how long to wait.
    pub open spec fn with_timeout(self, seconds: u64) -> RequestView {
        RequestView { timeout_s: Some(seconds), ..self }
    }
}

impl HttpRequest {
    /// A request with nothing but a method and an address.
    pub fn bare(method: Method, url: String) -> (r: HttpRequest)
        ensures
            r@ == RequestView::bare(method, url@),
    {
        let r = HttpRequest {
            method,
            url,
            headers: Vec::new(),
            bearer: None,
            body: None,
            timeout_s: None,
        };
        assert(header_views(r.headers@) =~= Seq::empty());
        r
    }

    /// The same request with one more header.
    pub fn with_header(self, name: &str, value: &str) -> (r: HttpRequest)
        ensures
            r@ == self@.with_header(name@, value@),
    {
        let mut r = self;
        let ghost before = r.headers@;
        r.headers.push(Header { name: name.to_owned(), value: value.to_owned() });
        assert(header_views(r.headers@) =~= header_views(before).push((name@, value@)));
        r
    }

    /// The same request with a bearer token.
    pub fn with_bearer(self, token: &str) -> (r: HttpRequest)
        ensures
            r@ == self@.with_bearer(token@),
    {
        let mut r = self;
        r.bearer = Some(token.to_owned());
        r
    }

    /// The same request with a JSON body.
    pub fn with_body(self, body: Json) -> (r: HttpRequest)
        ensures
            r@ == self@.with_body(body@),
    {
        let mut r = self;
        r.body = Some(body);
        r
    }

    /// The same request with a limit on how long to wait.
    pub fn with_timeout(self, seconds: u64) -> (r: HttpRequest)
        ensures
            r@ == self@.with_timeout(seconds),
    {
        let mut r = self;
        r.timeout_s = Some(seconds);
        r
    }
}

/// The views of a list of requests.
pub open spec fn request_views(v: Seq<HttpRequest>) -> Seq<RequestView> {
    v.map_values(|r: HttpRequest| r@)
}

/// The view of an optional request.
pub open spec fn opt_request_view(r: Option<HttpRequest>) -> Option<RequestView> {
    match r {
        Some(v) => Some(v@),
        None => None,
    }
}

/// A reply, with its body both as text and as what it was read as.
#[derive(Debug)]
pub struct HttpReply<T> {
    pub status: u16,
    /// The status with its name, such as `502 Bad Gateway`.
    pub status_line: String,
    pub text: String,
    /// What the body says, or why it could not be read.
    pub parsed: Result<T, String>,
}

/// The status of a request that was answered as asked.
pub open spec fn is_success(status: u16) -> bool {
    200 <= status <= 299
}

/// Whether a status says that the request was answered as asked.
pub fn success(status: u16) -> (r: bool)
    ensures
        r == is_success(status),
{
    200 <= status && status <= 299
}

/// What a web handler answers: a status and a plain body.
#[derive(Debug)]
pub struct WebReply {
    pub status: u16,
    pub body: String,
}

impl WebReply {
    /// The reply is `status` with `body`.
    pub open spec fn is(self, status: u16, body: Seq<char>) -> bool {
        self.status == status && self.body@ == body
    }

    pub fn new(status: u16, body: &str) -> (r: WebReply)
        ensures
            r.is(status, body@),
    {
        WebReply { status, body: body.to_owned() }
    }
}

// Laws.

/// Whatever is added to a request stays in it, and leaves the rest as it was.
pub proof fn additions_leave_the_rest(
    r: RequestView,
    name: Seq<char>,
    value: Seq<char>,
    body: JsonView,
    seconds: u64,
)
    ensures
        ({
            let h = r.with_header(name, value);
            &&& h.headers.len() == r.headers.len() + 1
            &&& h.headers.last() == (name, value)
            &&& h.headers.drop_last() == r.headers
            &&& h.method == r.method && h.url == r.url && h.bearer == r.bearer
            &&& h.body == r.body && h.timeout_s == r.timeout_s
        }),
        ({
            let b = r.with_bearer(value);
            &&& b.bearer == Some(value)
            &&& b.method == r.method && b.url == r.url && b.headers == r.headers
            &&& b.body == r.body && b.timeout_s == r.timeout_s
        }),
        ({
            let b = r.with_body(body);
            &&& b.body == Some(body)
            &&& b.method == r.method && b.url == r.url && b.headers == r.headers
            &&& b.bearer == r.bearer && b.timeout_s == r.timeout_s
        }),
        ({
            let t = r.with_timeout(seconds);
            &&& t.timeout_s == Some(seconds)
            &&& t.method == r.method && t.url == r.url && t.headers == r.headers
            &&& t.bearer == r.bearer && t.body == r.body
        }),
{
    assert(r.with_header(name, value).headers.drop_last() =~= r.headers);
}

/// A bare request asks for its address, with its method, and says nothing else.
pub proof fn a_bare_request_says_nothing_else(method: Method, url: Seq<char>)
    ensures
        ({
            let r = RequestView::bare(method, url);
            &&& r.method == method && r.url == url
            &&& r.headers.len() == 0 && r.bearer is None && r.body is None && r.timeout_s is None
        }),
{
}

/// A request was answered as asked exactly if the status is one of the two hundreds.
pub proof fn success_is_a_two_hundred(status: u16)
    ensures
        is_success(status) <==> status / 100 == 2,
{
}

} // verus!
