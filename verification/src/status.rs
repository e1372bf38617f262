//! What an operator reads: whether the model, the store and the gateway are usable
//! from here, each on its own. Whether signatures are checked is nothing to tell the
//! internet, so all of it stands behind the internal secret.

use vstd::prelude::*;

use crate::circuit_breaker::CircuitState;
use crate::json::{
    json_views, lookup, member, member_views, members_are_found_by_name, Json, JsonView, Member,
};
use crate::text::{opt_str_view, opt_view, same_text, signed_decimal, signed_decimal_of};
use crate::webhook::{usable, usable_secret};

verus! {

/// An answer in JSON.
pub struct JsonReply {
    pub status: u16,
    pub body: Json,
}

/// A moment: seconds since 1970 began, and nanoseconds into the second.
#[derive(Debug, Clone, Copy)]
pub struct Moment {
    pub secs: i64,
    pub nanos: u32,
}

impl Moment {
    pub open spec fn wf(self) -> bool {
        self.nanos < 1_000_000_000
    }

    /// How many nanoseconds lie between this moment and a later one; negative where it
    /// is an earlier one.
    pub open spec fn nanos_until(self, later: Moment) -> int {
        (later.secs - self.secs) * 1_000_000_000 + (later.nanos - self.nanos)
    }
}

/// Whole seconds, without the fraction.
pub open spec fn whole_seconds(nanos: int) -> int {
    if nanos >= 0 {
        nanos / 1_000_000_000
    } else {
        -((-nanos) / 1_000_000_000)
    }
}

/// A moment as RFC 3339 text in UTC, where the calendar has it.
pub uninterp spec fn rfc3339_text(secs: i64, nanos: u32) -> Option<Seq<char>>;

/// Calls `chrono::DateTime::from_timestamp` and on what it gives `to_rfc3339`. The text
/// is a function of the moment. There is one for every moment from 1970 to the end of
/// the year 9999, and none where the nanoseconds make two seconds.
#[verifier::external_body]
fn to_rfc3339(secs: i64, nanos: u32) -> (r: Option<String>)
    ensures
        match r {
            Some(s) => rfc3339_text(secs, nanos) == Some(s@),
            None => rfc3339_text(secs, nanos) is None,
        },
        0 <= secs <= 253402300799 && nanos < 1_000_000_000 ==> r is Some,
        nanos >= 2_000_000_000 ==> r is None,
{
    chrono::DateTime::from_timestamp(secs, nanos).map(|t| t.to_rfc3339())
}

/// Whoever presents the secret is authorised. Where none is set, or an empty one,
/// nobody is.
pub open spec fn is_authorised(expected: Option<Seq<char>>, presented: Option<Seq<char>>) -> bool {
    usable(expected) is Some && presented == expected
}

pub fn authorised(expected: Option<&str>, presented: Option<&str>) -> (r: bool)
    ensures
        r == is_authorised(opt_str_view(expected), opt_str_view(presented)),
{
    match usable_secret(expected) {
        Some(e) => match presented {
            Some(p) => same_text(p, e),
            None => false,
        },
        None => false,
    }
}

pub open spec fn refusal_json() -> JsonView {
    JsonView::Object(
        seq![("success"@, JsonView::Bool(false)), ("error"@, JsonView::Text("Unauthorized"@))],
    )
}

/// Lets a request pass, or gives the answer that refuses it.
pub fn gate(expected: Option<&str>, presented: Option<&str>) -> (r: Result<(), JsonReply>)
    ensures
        r is Ok <==> is_authorised(opt_str_view(expected), opt_str_view(presented)),
        r matches Err(reply) ==> reply.status == 401 && reply.body@ == refusal_json(),
{
    if authorised(expected, presented) {
        return Ok(());
    }
    let mut m: Vec<Member> = Vec::new();
    m.push(member("success", Json::Bool(false)));
    m.push(member("error", Json::text("Unauthorized")));
    assert(member_views(m@) =~= refusal_json()->Object_0);
    Err(JsonReply { status: 401, body: Json::object(m) })
}

/// One leg of the bridge in JSON: whether it works, and what is wrong.
pub open spec fn leg_json(result: Result<(), Seq<char>>) -> JsonView {
    match result {
        Ok(()) => JsonView::Object(seq![("ok"@, JsonView::Bool(true)), ("error"@, JsonView::Null)]),
        Err(e) => JsonView::Object(
            seq![("ok"@, JsonView::Bool(false)), ("error"@, JsonView::Text(e))],
        ),
    }
}

/// The view of what a check found.
pub open spec fn check_view(result: Result<(), String>) -> Result<(), Seq<char>> {
    match result {
        Ok(()) => Ok(()),
        Err(e) => Err(e@),
    }
}

pub fn leg(result: &Result<(), String>) -> (r: Json)
    ensures
        r@ == leg_json(check_view(*result)),
{
    let mut m: Vec<Member> = Vec::new();
    match result {
        Ok(()) => {
            m.push(member("ok", Json::Bool(true)));
            m.push(member("error", Json::Null));
        },
        Err(e) => {
            m.push(member("ok", Json::Bool(false)));
            m.push(member("error", Json::text(e.as_str())));
        },
    }
    assert(member_views(m@) =~= leg_json(check_view(*result))->Object_0);
    Json::object(m)
}

pub open spec fn circuit_text(state: CircuitState) -> Seq<char> {
    match state {
        CircuitState::Closed => "closed"@,
        CircuitState::Open => "open"@,
        CircuitState::HalfOpen => "half_open"@,
    }
}

pub fn circuit_name(state: CircuitState) -> (r: &'static str)
    ensures
        r@ == circuit_text(state),
{
    match state {
        CircuitState::Closed => "closed",
        CircuitState::Open => "open",
        CircuitState::HalfOpen => "half_open",
    }
}

/// What the report tells.
pub struct Facts<'a> {
    pub version: &'a str,
    pub model: &'a str,
    pub circuit: CircuitState,
    /// Whether the model's API takes the key.
    pub key: Result<(), String>,
    pub store: Result<(), String>,
    pub gateway: Result<(), String>,
    /// Whether there is a secret for tenants that have none of their own.
    pub platform_secret: bool,
}

/// The report in JSON. What concerns the model stands under `claude_api`.
pub open spec fn report_json(
    f: Facts<'_>,
    started_at: Option<Seq<char>>,
    uptime_seconds: int,
) -> JsonView {
    JsonView::Object(
        seq![
            ("success"@, JsonView::Bool(true)),
            ("version"@, JsonView::Text(f.version@)),
            (
                "started_at"@,
                match started_at {
                    Some(t) => JsonView::Text(t),
                    None => JsonView::Null,
                },
            ),
            ("uptime_seconds"@, JsonView::Number(signed_decimal_of(uptime_seconds))),
            (
                "channels"@,
                JsonView::Array(seq![JsonView::Text("whatsapp"@), JsonView::Text("telegram"@)]),
            ),
            (
                "claude_api"@,
                JsonView::Object(
                    seq![
                        ("model"@, JsonView::Text(f.model@)),
                        ("key"@, leg_json(check_view(f.key))),
                        ("circuit"@, JsonView::Text(circuit_text(f.circuit))),
                    ],
                ),
            ),
            ("store"@, leg_json(check_view(f.store))),
            ("gateway"@, leg_json(check_view(f.gateway))),
            ("webhook_signature_validation"@, JsonView::Bool(f.platform_secret)),
        ],
    )
}

/// How many whole seconds have passed.
pub fn uptime_seconds(started: &Moment, now: &Moment) -> (r: i64)
    requires
        started.wf(),
        now.wf(),
        i64::MIN <= now.secs - started.secs <= i64::MAX,
    ensures
        r == whole_seconds(started.nanos_until(*now)),
{
    let d: i64 = now.secs - started.secs;
    let ghost n = started.nanos_until(*now);
    if d > 0 && now.nanos < started.nanos {
        assert(n / 1_000_000_000 == d - 1) by (nonlinear_arith)
            requires
                n == d * 1_000_000_000 + (now.nanos - started.nanos),
                -1_000_000_000 < now.nanos - started.nanos < 0,
        ;
        d - 1
    } else if d < 0 && now.nanos > started.nanos {
        assert((-n) / 1_000_000_000 == -d - 1) by (nonlinear_arith)
            requires
                n == d * 1_000_000_000 + (now.nanos - started.nanos),
                0 < now.nanos - started.nanos < 1_000_000_000,
        ;
        d + 1
    } else {
        d
    }
}

/// The report.
pub fn report(f: &Facts<'_>, started_at: Option<String>, uptime_seconds: i64) -> (r: JsonReply)
    ensures
        r.status == 200,
        r.body@ == report_json(*f, opt_view(started_at), uptime_seconds as int),
{
    let ghost started_view = opt_view(started_at);
    let mut channels: Vec<Json> = Vec::new();
    channels.push(Json::text("whatsapp"));
    channels.push(Json::text("telegram"));
    assert(json_views(channels@) =~= seq![JsonView::Text("whatsapp"@), JsonView::Text("telegram"@)]);
    let mut claude: Vec<Member> = Vec::new();
    claude.push(member("model", Json::text(f.model)));
    claude.push(member("key", leg(&f.key)));
    claude.push(member("circuit", Json::text(circuit_name(f.circuit))));
    assert(member_views(claude@) =~= seq![
        ("model"@, JsonView::Text(f.model@)),
        ("key"@, leg_json(check_view(f.key))),
        ("circuit"@, JsonView::Text(circuit_text(f.circuit))),
    ]);
    let started: Json = match started_at {
        Some(t) => Json::Text(t),
        None => Json::Null,
    };
    let mut m: Vec<Member> = Vec::new();
    m.push(member("success", Json::Bool(true)));
    m.push(member("version", Json::text(f.version)));
    m.push(member("started_at", started));
    m.push(member("uptime_seconds", Json::Number(signed_decimal(uptime_seconds))));
    m.push(member("channels", Json::array(channels)));
    m.push(member("claude_api", Json::object(claude)));
    m.push(member("store", leg(&f.store)));
    m.push(member("gateway", leg(&f.gateway)));
    m.push(member("webhook_signature_validation", Json::Bool(f.platform_secret)));
    assert(member_views(m@) =~= report_json(
        *f,
        started_view,
        uptime_seconds as int,
    )->Object_0);
    JsonReply { status: 200, body: Json::object(m) }
}

/// The report, for a bridge that started at `started`.
pub fn status(f: &Facts<'_>, started: &Moment, now: &Moment) -> (r: JsonReply)
    requires
        started.wf(),
        now.wf(),
        i64::MIN <= now.secs - started.secs <= i64::MAX,
    ensures
        r.status == 200,
        r.body@ == report_json(
            *f,
            rfc3339_text(started.secs, started.nanos),
            whole_seconds(started.nanos_until(*now)),
        ),
        0 <= started.secs <= 253402300799 ==> rfc3339_text(started.secs, started.nanos) is Some,
{
    let started_at: Option<String> = to_rfc3339(started.secs, started.nanos);
    report(f, started_at, uptime_seconds(started, now))
}

// Laws.

/// Without a secret nobody is authorised, whatever they present.
pub proof fn no_secret_authorises_nobody(presented: Option<Seq<char>>)
    ensures
        !is_authorised(None, presented),
        !is_authorised(Some(Seq::empty()), presented),
{
}

/// Only the secret itself authorises.
pub proof fn only_the_secret_authorises(secret: Seq<char>, presented: Option<Seq<char>>)
    requires
        secret.len() > 0,
    ensures
        is_authorised(Some(secret), presented) <==> presented == Some(secret),
{
}

/// Uptime is what has passed, cut off to whole seconds: never more than has passed, and
/// less than a second short of it. Looked at from the other end it is the same, negative.
pub proof fn uptime_is_cut_off_to_seconds(a: Moment, b: Moment)
    ensures
        ({
            let n = a.nanos_until(b);
            let r = whole_seconds(n);
            &&& n == (b.secs - a.secs) * 1_000_000_000 + b.nanos - a.nanos
            &&& n >= 0 ==> r * 1_000_000_000 <= n < (r + 1) * 1_000_000_000
            &&& whole_seconds(b.nanos_until(a)) == -r
        }),
{
    assert(b.nanos_until(a) == -a.nanos_until(b)) by (nonlinear_arith)
        requires
            b.nanos_until(a) == (a.secs - b.secs) * 1_000_000_000 + (a.nanos - b.nanos),
            a.nanos_until(b) == (b.secs - a.secs) * 1_000_000_000 + (b.nanos - a.nanos),
    ;
}

/// A leg is reported as working exactly if nothing is wrong with it, and what is wrong is
/// told word for word.
pub proof fn a_leg_says_what_is_wrong(e: Seq<char>)
    ensures
        leg_json(Ok(())).at("ok"@) == JsonView::Bool(true),
        leg_json(Ok(())).at("error"@) == JsonView::Null,
        leg_json(Err(e)).at("ok"@) == JsonView::Bool(false),
        leg_json(Err(e)).at("error"@) == JsonView::Text(e),
{
    reveal_strlit("ok");
    reveal_strlit("error");
    assert("ok"@.len() != "error"@.len());
    members_are_found_by_name(leg_json(Ok(()))->Object_0, "ok"@, 0);
    members_are_found_by_name(leg_json(Ok(()))->Object_0, "error"@, 1);
    members_are_found_by_name(leg_json(Err(e))->Object_0, "ok"@, 0);
    members_are_found_by_name(leg_json(Err(e))->Object_0, "error"@, 1);
}

/// The report tells each thing on its own: every leg under its name, with what was found
/// of that leg and of no other.
pub proof fn the_report_tells_each_leg_on_its_own(
    f: Facts<'_>,
    started_at: Option<Seq<char>>,
    uptime: int,
)
    ensures
        ({
            let j = report_json(f, started_at, uptime);
            let model = j.at("claude_api"@);
            &&& j.at("success"@) == JsonView::Bool(true)
            &&& j.at("version"@) == JsonView::Text(f.version@)
            &&& j.at("started_at"@) == (match started_at {
                Some(t) => JsonView::Text(t),
                None => JsonView::Null,
            })
            &&& j.at("uptime_seconds"@) == JsonView::Number(signed_decimal_of(uptime))
            &&& model.at("model"@) == JsonView::Text(f.model@)
            &&& model.at("key"@) == leg_json(check_view(f.key))
            &&& model.at("circuit"@) == JsonView::Text(circuit_text(f.circuit))
            &&& j.at("store"@) == leg_json(check_view(f.store))
            &&& j.at("gateway"@) == leg_json(check_view(f.gateway))
            &&& j.at("webhook_signature_validation"@) == JsonView::Bool(f.platform_secret)
        }),
{
    reveal_strlit("success");
    reveal_strlit("version");
    reveal_strlit("started_at");
    reveal_strlit("uptime_seconds");
    reveal_strlit("channels");
    reveal_strlit("claude_api");
    reveal_strlit("store");
    reveal_strlit("gateway");
    reveal_strlit("webhook_signature_validation");
    assert("success"@.len() == 7 && "version"@.len() == 7 && "gateway"@.len() == 7);
    assert("success"@[0] == 's' && "version"@[0] == 'v' && "gateway"@[0] == 'g');
    assert("started_at"@.len() == 10 && "claude_api"@.len() == 10);
    assert("started_at"@[0] == 's' && "claude_api"@[0] == 'c');
    assert("uptime_seconds"@.len() == 14 && "channels"@.len() == 8 && "store"@.len() == 5
        && "webhook_signature_validation"@.len() == 28);
    let m = report_json(f, started_at, uptime)->Object_0;
    members_are_found_by_name(m, "success"@, 0);
    members_are_found_by_name(m, "version"@, 1);
    members_are_found_by_name(m, "started_at"@, 2);
    members_are_found_by_name(m, "uptime_seconds"@, 3);
    members_are_found_by_name(m, "claude_api"@, 5);
    members_are_found_by_name(m, "store"@, 6);
    members_are_found_by_name(m, "gateway"@, 7);
    members_are_found_by_name(m, "webhook_signature_validation"@, 8);
    reveal_strlit("model");
    reveal_strlit("key");
    reveal_strlit("circuit");
    assert("model"@.len() == 5 && "key"@.len() == 3 && "circuit"@.len() == 7);
    let c = m[5].1->Object_0;
    members_are_found_by_name(c, "model"@, 0);
    members_are_found_by_name(c, "key"@, 1);
    members_are_found_by_name(c, "circuit"@, 2);
}

/// Whoever is refused is told so, and nothing else.
pub proof fn a_refusal_tells_nothing(key: Seq<char>)
    ensures
        refusal_json().at("success"@) == JsonView::Bool(false),
        refusal_json().at("error"@) == JsonView::Text("Unauthorized"@),
        key != "success"@ && key != "error"@ ==> refusal_json().at(key) == JsonView::Null,
{
    reveal_strlit("success");
    reveal_strlit("error");
    assert("success"@.len() != "error"@.len());
    let m = refusal_json()->Object_0;
    members_are_found_by_name(m, "success"@, 0);
    members_are_found_by_name(m, "error"@, 1);
    reveal_with_fuel(lookup, 3);
    assert(m[0].0 == "success"@ && m.drop_first()[0].0 == "error"@);
}

/// The report names both channels and tells the three states of the circuit apart.
pub proof fn the_report_names_channels_and_states(
    f: Facts<'_>,
    started_at: Option<Seq<char>>,
    uptime: int,
)
    ensures
        ({
            let channels = report_json(f, started_at, uptime).at("channels"@);
            &&& channels is Array
            &&& channels->Array_0.len() == 2
            &&& channels->Array_0[0] == JsonView::Text("whatsapp"@)
            &&& channels->Array_0[1] == JsonView::Text("telegram"@)
        }),
        circuit_text(f.circuit) == "closed"@ <==> f.circuit == CircuitState::Closed,
        circuit_text(f.circuit) == "open"@ <==> f.circuit == CircuitState::Open,
        circuit_text(f.circuit) == "half_open"@ <==> f.circuit == CircuitState::HalfOpen,
{
    reveal_strlit("closed");
    reveal_strlit("open");
    reveal_strlit("half_open");
    assert("closed"@.len() == 6 && "open"@.len() == 4 && "half_open"@.len() == 9);
    reveal_strlit("success");
    reveal_strlit("version");
    reveal_strlit("started_at");
    reveal_strlit("uptime_seconds");
    reveal_strlit("channels");
    assert("success"@.len() == 7 && "version"@.len() == 7 && "started_at"@.len() == 10
        && "uptime_seconds"@.len() == 14 && "channels"@.len() == 8);
    members_are_found_by_name(report_json(f, started_at, uptime)->Object_0, "channels"@, 4);
}

/// Whatever went wrong with a leg, even if it has no words, the leg is not reported as
/// working.
pub proof fn a_failed_leg_is_never_fine(result: Result<(), String>)
    ensures
        leg_json(check_view(result)).at("ok"@) == JsonView::Bool(result is Ok),
        result is Err ==> leg_json(check_view(result)).at("error"@) == JsonView::Text(
            result->Err_0@,
        ),
{
    match result {
        Ok(()) => a_leg_says_what_is_wrong(Seq::empty()),
        Err(e) => a_leg_says_what_is_wrong(e@),
    }
}

} // verus!
