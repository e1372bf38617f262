use whatsapp_bridge::circuit_breaker::CircuitState;
use whatsapp_bridge::config::ServerConfig;
use whatsapp_bridge::json::Json;
use whatsapp_bridge::status::{
    authorised, circuit_name, gate, leg, report, status, uptime_seconds, Facts, Moment,
};

fn show(j: &Json) -> String {
    match j {
        Json::Null => "null".to_string(),
        Json::Bool(b) => format!("{b}"),
        Json::Number(n) => n.clone(),
        Json::Text(t) => format!("{t:?}"),
        Json::Array(v) => format!("[{}]", v.iter().map(show).collect::<Vec<_>>().join(",")),
        Json::Object(m) => format!(
            "{{{}}}",
            m.iter().map(|m| format!("{:?}:{}", m.key, show(&m.value))).collect::<Vec<_>>().join(",")
        ),
    }
}

#[test]
fn only_the_secret_gets_in() {
    assert!(authorised(Some("s"), Some("s")));
    assert!(!authorised(Some("s"), Some("S")));
    assert!(!authorised(Some("s"), None));
}

#[test]
fn without_a_secret_nobody_gets_in() {
    assert!(!authorised(None, None));
    assert!(!authorised(None, Some("s")));
    assert!(!authorised(Some(""), Some("")));
    assert!(!authorised(Some(""), None));
}

#[test]
fn a_stranger_is_refused() {
    assert!(gate(Some("s"), Some("s")).is_ok());
    match gate(Some("s"), None) {
        Err(r) => {
            assert_eq!(r.status, 401);
            assert_eq!(show(&r.body), r#"{"success":false,"error":"Unauthorized"}"#);
        }
        Ok(()) => panic!("let in"),
    }
}

#[test]
fn a_leg_says_whether_it_works() {
    assert_eq!(show(&leg(&Ok(()))), r#"{"ok":true,"error":null}"#);
    assert_eq!(show(&leg(&Err("down".into()))), r#"{"ok":false,"error":"down"}"#);
}

#[test]
fn circuits_have_names() {
    assert_eq!(circuit_name(CircuitState::Closed), "closed");
    assert_eq!(circuit_name(CircuitState::Open), "open");
    assert_eq!(circuit_name(CircuitState::HalfOpen), "half_open");
}

fn at(secs: i64, nanos: u32) -> Moment {
    Moment { secs, nanos }
}

#[test]
fn uptime_is_in_whole_seconds() {
    assert_eq!(uptime_seconds(&at(10, 500), &at(12, 500)), 2);
    assert_eq!(uptime_seconds(&at(10, 501), &at(12, 500)), 1);
    assert_eq!(uptime_seconds(&at(10, 500), &at(10, 499)), 0);
    assert_eq!(uptime_seconds(&at(12, 500), &at(10, 501)), -1);
    assert_eq!(uptime_seconds(&at(12, 500), &at(10, 500)), -2);
    assert_eq!(uptime_seconds(&at(-5, 0), &at(5, 999_999_999)), 10);
}

fn facts() -> Facts<'static> {
    Facts {
        version: "1.2.3",
        model: "m",
        circuit: CircuitState::HalfOpen,
        key: Ok(()),
        store: Err("store down".into()),
        gateway: Ok(()),
        platform_secret: true,
    }
}

#[test]
fn the_report_names_every_leg() {
    let r = status(&facts(), &at(1_431_648_000, 0), &at(1_431_648_090, 1));
    assert_eq!(r.status, 200);
    let expected = [
        r#"{"success":true,"version":"1.2.3","started_at":"2015-05-15T00:00:00+00:00","#,
        r#""uptime_seconds":90,"channels":["whatsapp","telegram"],"#,
        r#""claude_api":{"model":"m","key":{"ok":true,"error":null},"circuit":"half_open"},"#,
        r#""store":{"ok":false,"error":"store down"},"gateway":{"ok":true,"error":null},"#,
        r#""webhook_signature_validation":true}"#,
    ];
    assert_eq!(show(&r.body), expected.concat());
}

#[test]
fn a_start_within_a_second_is_told_exactly() {
    let r = status(&facts(), &at(0, 250_000_000), &at(1, 0));
    assert_eq!(r.body.text_at("started_at"), Some("1970-01-01T00:00:00.250+00:00"));
    let r = status(&facts(), &at(253_402_300_799, 999_999_999), &at(253_402_300_799, 999_999_999));
    assert_eq!(r.body.text_at("started_at"), Some("9999-12-31T23:59:59.999999999+00:00"));
}

#[test]
fn a_start_outside_the_calendar_is_not_told() {
    let r = status(&facts(), &at(i64::MAX, 0), &at(i64::MAX, 0));
    assert!(matches!(r.body.get("started_at"), Some(Json::Null)));
    let r = report(&facts(), None, -4);
    assert!(matches!(r.body.get("started_at"), Some(Json::Null)));
    assert!(matches!(r.body.get("uptime_seconds"), Some(Json::Number(n)) if n == "-4"));
}

#[test]
fn the_server_listens_on_host_and_port() {
    let server = ServerConfig { host: "0.0.0.0".into(), port: 8080 };
    assert_eq!(server.bind_address(), "0.0.0.0:8080");
}
