use ctly_report::json::{Json, JsonNumber};
use ctly_report::poller::{timezone_of_app, PollAction, PollEvent, PollPhase, Poller, TimezoneTable};

fn table() -> TimezoneTable {
    TimezoneTable { entries: vec![("UTC".to_string(), 0), ("Europe/Berlin".to_string(), 3600)] }
}

fn snapshot() -> Json {
    let leaf = Json::Number(JsonNumber { positive: true, mantissa: 7, exponent: 0 });
    let day = Json::Object(vec![("e".to_string(), leaf)]);
    let month = Json::Object(vec![("15".to_string(), day)]);
    let year = Json::Object(vec![("3".to_string(), month)]);
    Json::Object(vec![("2024".to_string(), year)])
}

#[test]
fn timezone_lookup() {
    let t = table();
    assert_eq!(t.offset_of(&"Europe/Berlin".to_string()), Some(3600));
    assert_eq!(t.offset_of(&"Mars/Olympus".to_string()), None);
}

#[test]
fn full_cycle_publishes_report() {
    let mut p = Poller::new(table());
    assert!(matches!(p.step(PollEvent::Tick), PollAction::FetchMetrics));
    assert!(matches!(p.step(PollEvent::Metrics(snapshot())), PollAction::FetchTimezone));
    assert_eq!(p.phase, PollPhase::AwaitingTimezone);
    let a = p.step(PollEvent::Timezone { name: "Europe/Berlin".to_string(), now_secs: 1_710_496_800 });
    match a {
        PollAction::Publish(Some(r)) => assert_eq!(r.total.len(), 1),
        _ => panic!("expected a report"),
    }
    assert_eq!(p.phase, PollPhase::Idle);
    assert!(p.pending.is_none());
}

#[test]
fn unknown_timezone_ends_cycle() {
    let mut p = Poller::new(table());
    p.step(PollEvent::Tick);
    p.step(PollEvent::Metrics(snapshot()));
    let a = p.step(PollEvent::Timezone { name: "Nowhere".to_string(), now_secs: 0 });
    assert!(matches!(a, PollAction::UnknownTimezone));
    assert_eq!(p.phase, PollPhase::Idle);
}

#[test]
fn failure_sleeps_then_retries() {
    let mut p = Poller::new(table());
    p.step(PollEvent::Tick);
    assert!(matches!(p.step(PollEvent::Failed), PollAction::Sleep));
    assert!(matches!(p.step(PollEvent::Tick), PollAction::FetchMetrics));
}

#[test]
fn day_without_data_publishes_empty_report() {
    let mut p = Poller::new(table());
    p.step(PollEvent::Tick);
    p.step(PollEvent::Metrics(Json::Object(Vec::new())));
    let a = p.step(PollEvent::Timezone { name: "UTC".to_string(), now_secs: 0 });
    assert!(matches!(a, PollAction::Publish(None)));
}

#[test]
fn out_of_order_metrics_sleep() {
    let mut p = Poller::new(table());
    assert!(matches!(p.step(PollEvent::Metrics(Json::Null)), PollAction::Sleep));
}

fn app_list(app_id: &str, timezone: Json) -> Json {
    let app = Json::Object(vec![("timezone".to_string(), timezone)]);
    let admin = Json::Object(vec![(app_id.to_string(), app)]);
    Json::Object(vec![("admin_of".to_string(), admin)])
}

#[test]
fn timezone_of_administered_app() {
    let apps = app_list("abc", Json::Str("Europe/Berlin".to_string()));
    assert_eq!(timezone_of_app(apps, &"abc".to_string()), Some("Europe/Berlin".to_string()));
}

#[test]
fn timezone_of_unknown_app_is_none() {
    let apps = app_list("abc", Json::Str("UTC".to_string()));
    assert_eq!(timezone_of_app(apps, &"xyz".to_string()), None);
    assert_eq!(timezone_of_app(Json::Null, &"abc".to_string()), None);
}

#[test]
fn timezone_that_is_not_a_string_is_none() {
    let apps = app_list("abc", Json::Bool(true));
    assert_eq!(timezone_of_app(apps, &"abc".to_string()), None);
}

#[test]
fn timezone_without_pending_snapshot_sleeps() {
    let mut p = Poller::new(table());
    let a = p.step(PollEvent::Timezone { name: "Nowhere".to_string(), now_secs: 0 });
    assert!(matches!(a, PollAction::Sleep));
}
