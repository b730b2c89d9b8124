use zenoh_mcp::session::{
    listen_secs, reply_timeout_ms, resolve_connect, sample_limit, session_settings, Collector, RecvEvent, Step,
};

#[test]
fn connect_argument_wins() {
    assert_eq!(
        resolve_connect(Some("tcp/10.0.0.1:7447".to_string()), Some("tcp/env:7447".to_string())),
        "tcp/10.0.0.1:7447"
    );
}

#[test]
fn empty_connect_argument_falls_back() {
    assert_eq!(resolve_connect(Some(String::new()), Some("tcp/env:7447".to_string())), "tcp/env:7447");
    assert_eq!(resolve_connect(Some(String::new()), None), "tcp/localhost:7447");
    assert_eq!(resolve_connect(None, None), "tcp/localhost:7447");
    assert_eq!(resolve_connect(None, Some(String::new())), "");
}

#[test]
fn reply_timeout_defaults_and_caps() {
    assert_eq!(reply_timeout_ms(None), 3000);
    assert_eq!(reply_timeout_ms(Some(0)), 0);
    assert_eq!(reply_timeout_ms(Some(500)), 500);
    assert_eq!(reply_timeout_ms(Some(30_000)), 30_000);
    assert_eq!(reply_timeout_ms(Some(u64::MAX)), 30_000);
}

#[test]
fn listen_secs_defaults_and_clamps() {
    assert_eq!(listen_secs(None), 3);
    assert_eq!(listen_secs(Some(0)), 1);
    assert_eq!(listen_secs(Some(7)), 7);
    assert_eq!(listen_secs(Some(31)), 30);
}

#[test]
fn sample_limit_defaults_and_clamps() {
    assert_eq!(sample_limit(None), 100);
    assert_eq!(sample_limit(Some(0)), 1);
    assert_eq!(sample_limit(Some(2000)), 2000);
    assert_eq!(sample_limit(Some(5000)), 2000);
}

#[test]
fn collector_stops_at_limit() {
    let mut c = Collector::new(Some(2));
    assert_eq!(c.next_step(true), Step::Receive);
    assert!(c.on_event(RecvEvent::Item));
    assert_eq!(c.next_step(true), Step::Receive);
    assert!(c.on_event(RecvEvent::Item));
    assert_eq!(c.next_step(true), Step::Finish);
    assert!(!c.on_event(RecvEvent::Item));
    assert_eq!(c.count(), 2);
    assert!(c.truncated());
}

#[test]
fn collector_stops_when_closed_or_quiet() {
    let mut c = Collector::new(Some(5));
    assert!(c.on_event(RecvEvent::Item));
    assert!(!c.on_event(RecvEvent::Closed));
    assert_eq!(c.next_step(true), Step::Finish);
    assert_eq!(c.count(), 1);
    assert!(!c.truncated());

    let mut q = Collector::new(None);
    assert!(!q.on_event(RecvEvent::TimedOut));
    assert_eq!(q.next_step(true), Step::Finish);
}

#[test]
fn collector_stops_when_time_is_up() {
    let c = Collector::new(None);
    assert_eq!(c.next_step(false), Step::Finish);
    assert_eq!(c.next_step(true), Step::Receive);
    assert!(!c.truncated());
}

#[test]
fn session_settings_for_router() {
    let s = session_settings("tcp/192.0.2.10:7447");
    assert_eq!(
        s,
        vec![
            ("mode".to_string(), "\"client\"".to_string()),
            ("connect/endpoints".to_string(), "[\"tcp/192.0.2.10:7447\"]".to_string()),
            ("scouting/multicast/enabled".to_string(), "false".to_string()),
        ]
    );
}
