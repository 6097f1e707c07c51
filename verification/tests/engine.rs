use fingerscrossed::clock::unix_millis;
use fingerscrossed::config::Config;
use fingerscrossed::config::FieldMatcher;
use fingerscrossed::config::Trigger;
use fingerscrossed::config::TrxConfig;
use fingerscrossed::trx::LogLine;
use fingerscrossed::trx::Message;
use fingerscrossed::trx::ParseError;
use fingerscrossed::trx::TrxHandler;
use serde_json::Value;

fn key(id: &str) -> String {
    id.to_string()
}

fn record(id: &str, at: u128, text: &str) -> LogLine {
    LogLine::new(id.to_string(), at, text.to_string(), Value::Null)
}

fn parsed(at: u128, text: &str) -> LogLine {
    let doc = serde_json::from_str::<Value>(text).unwrap();
    let id = doc.get("trace_id").and_then(|v| v.as_str()).unwrap().to_string();
    LogLine::new(id, at, text.to_string(), doc)
}

fn rule(field: &str, matcher: FieldMatcher) -> Trigger {
    vec![(field.to_string(), matcher)]
}

/// Flushes on the default levels, completes on `msg` = `done`.
fn completing() -> TrxHandler {
    let mut conf = TrxConfig::default();
    conf.completion_triggers = vec![rule("msg", FieldMatcher::StrVal("done".to_string()))];
    TrxHandler::new(conf)
}

fn line(handler: &mut TrxHandler, text: &str) -> Vec<String> {
    handler.observe(Message::Line(text.to_string())).unwrap()
}

#[test]
fn new_handler_is_empty() {
    let handler = TrxHandler::new(TrxConfig::default());
    assert_eq!(handler.store().len(), 0);
}

#[test]
fn history_is_flushed_by_an_error() {
    let mut handler = TrxHandler::new(TrxConfig::default());
    let start = r#"{"trace_id":"abc","level":"info","msg":"start"}"#;
    let step = r#"{"trace_id":"abc","level":"info","msg":"step"}"#;
    let boom = r#"{"trace_id":"abc","level":"error","msg":"boom"}"#;
    assert!(line(&mut handler, start).is_empty());
    assert!(line(&mut handler, step).is_empty());
    assert_eq!(line(&mut handler, boom), vec![start.to_string(), step.to_string(), boom.to_string()]);
}

#[test]
fn quiet_transaction_is_discarded_by_the_sweep() {
    let mut handler = TrxHandler::new(TrxConfig::default());
    assert!(line(&mut handler, r#"{"trace_id":"abc","level":"info","msg":"start"}"#).is_empty());
    assert!(line(&mut handler, r#"{"trace_id":"abc","level":"info","msg":"step"}"#).is_empty());
    assert_eq!(handler.store().len(), 1);
    let sweep = handler.observe(Message::Cleanup(unix_millis() + 5001)).unwrap();
    assert!(sweep.is_empty());
    assert_eq!(handler.store().len(), 0);
    // what was held is gone for good: a later error releases itself alone
    let boom = r#"{"trace_id":"abc","level":"error","msg":"boom"}"#;
    assert_eq!(line(&mut handler, boom), vec![boom.to_string()]);
}

#[test]
fn sweep_within_the_timeout_keeps_the_history() {
    let mut handler = TrxHandler::new(TrxConfig::default());
    let before = unix_millis();
    let start = r#"{"trace_id":"abc","level":"info","msg":"start"}"#;
    assert!(line(&mut handler, start).is_empty());
    assert!(handler.observe(Message::Cleanup(before + 5000)).unwrap().is_empty());
    assert!(handler.observe(Message::Cleanup(0)).unwrap().is_empty());
    assert_eq!(handler.store().len(), 1);
    let boom = r#"{"trace_id":"abc","level":"fatal"}"#;
    assert_eq!(line(&mut handler, boom), vec![start.to_string(), boom.to_string()]);
}

#[test]
fn sweep_boundary_is_strict() {
    let mut handler = TrxHandler::new(TrxConfig::default());
    assert!(handler.apply(record("a", 1000, "a1"), false, false).is_empty());
    handler.observe(Message::Cleanup(6000));
    assert!(handler.store().contains(&key("a")));
    handler.observe(Message::Cleanup(6001));
    assert!(!handler.store().contains(&key("a")));
}

#[test]
fn sweep_twice_is_a_no_op_the_second_time() {
    let mut handler = TrxHandler::new(TrxConfig::default());
    handler.apply(record("a", 1000, "a1"), false, false);
    handler.apply(record("b", 4000, "b1"), false, false);
    handler.apply(record("c", 2000, "c1"), false, false);
    handler.observe(Message::Cleanup(7500));
    assert_eq!(handler.store().len(), 1);
    assert!(handler.store().contains(&key("b")));
    handler.observe(Message::Cleanup(7500));
    assert_eq!(handler.store().len(), 1);
    assert!(handler.store().contains(&key("b")));
    assert_eq!(
        handler.apply(record("b", 7600, "b2"), true, false),
        vec!["b1".to_string(), "b2".to_string()]
    );
}

#[test]
fn triggered_transaction_passes_every_line_through() {
    let mut handler = TrxHandler::new(TrxConfig::default());
    let boom = r#"{"trace_id":"abc","level":"error"}"#;
    let info = r#"{"trace_id":"abc","level":"info"}"#;
    let again = r#"{"trace_id":"abc","level":"critical"}"#;
    assert_eq!(line(&mut handler, boom), vec![boom.to_string()]);
    assert_eq!(line(&mut handler, info), vec![info.to_string()]);
    assert_eq!(line(&mut handler, info), vec![info.to_string()]);
    assert_eq!(line(&mut handler, again), vec![again.to_string()]);
    assert_eq!(handler.store().len(), 1);
}

#[test]
fn triggered_transaction_is_not_swept() {
    let mut handler = TrxHandler::new(TrxConfig::default());
    handler.apply(record("a", 1000, "a1"), false, false);
    assert_eq!(
        handler.apply(record("a", 2000, "a2"), true, false),
        vec!["a1".to_string(), "a2".to_string()]
    );
    handler.observe(Message::Cleanup(u128::MAX));
    assert!(handler.store().contains(&key("a")));
    assert_eq!(handler.apply(record("a", 3000, "a3"), false, false), vec!["a3".to_string()]);
}

#[test]
fn ids_do_not_mix() {
    let mut handler = TrxHandler::new(TrxConfig::default());
    let a1 = r#"{"trace_id":"a","level":"info","n":1}"#;
    let b1 = r#"{"trace_id":"b","level":"info","n":1}"#;
    let a2 = r#"{"trace_id":"a","level":"info","n":2}"#;
    let b2 = r#"{"trace_id":"b","level":"error","n":2}"#;
    let a3 = r#"{"trace_id":"a","level":"error","n":3}"#;
    assert!(line(&mut handler, a1).is_empty());
    assert!(line(&mut handler, b1).is_empty());
    assert!(line(&mut handler, a2).is_empty());
    assert_eq!(line(&mut handler, b2), vec![b1.to_string(), b2.to_string()]);
    assert_eq!(line(&mut handler, a3), vec![a1.to_string(), a2.to_string(), a3.to_string()]);
}

#[test]
fn unparseable_lines_pass_through_untouched() {
    let mut handler = TrxHandler::new(TrxConfig::default());
    assert!(line(&mut handler, r#"{"trace_id":"abc","level":"info"}"#).is_empty());
    for text in ["plain text", "", "{", r#"{"level":"error"}"#, r#"{"trace_id":5,"level":"error"}"#, "[1,2]"]
    {
        assert_eq!(line(&mut handler, text), vec![text.to_string()]);
        assert_eq!(handler.store().len(), 1);
    }
    // the held line is still held
    let boom = r#"{"trace_id":"abc","level":"error"}"#;
    assert_eq!(
        line(&mut handler, boom),
        vec![r#"{"trace_id":"abc","level":"info"}"#.to_string(), boom.to_string()]
    );
}

#[test]
fn handle_trx_line_reports_why_a_line_has_no_record() {
    let mut handler = TrxHandler::new(TrxConfig::default());
    assert_eq!(handler.handle_trx_line("nope").unwrap_err(), ParseError::Malformed);
    assert_eq!(handler.handle_trx_line("{}").unwrap_err(), ParseError::MissingTraceId);
    assert_eq!(handler.store().len(), 0);
    assert!(handler.handle_trx_line(r#"{"trace_id":"a"}"#).unwrap().is_empty());
    assert_eq!(handler.store().len(), 1);
}

#[test]
fn completion_removes_the_transaction_silently() {
    let mut handler = completing();
    assert!(line(&mut handler, r#"{"trace_id":"a","level":"info","msg":"start"}"#).is_empty());
    assert!(line(&mut handler, r#"{"trace_id":"a","level":"info","msg":"done"}"#).is_empty());
    assert_eq!(handler.store().len(), 0);
}

#[test]
fn completion_resets_the_id() {
    let mut handler = completing();
    let old = r#"{"trace_id":"a","level":"info","msg":"old"}"#;
    let done = r#"{"trace_id":"a","level":"info","msg":"done"}"#;
    let fresh = r#"{"trace_id":"a","level":"info","msg":"fresh"}"#;
    let boom = r#"{"trace_id":"a","level":"error","msg":"boom"}"#;
    assert!(line(&mut handler, old).is_empty());
    assert!(line(&mut handler, done).is_empty());
    assert!(line(&mut handler, fresh).is_empty());
    assert_eq!(handler.store().len(), 1);
    assert_eq!(line(&mut handler, boom), vec![fresh.to_string(), boom.to_string()]);
}

#[test]
fn flush_and_completion_on_one_line() {
    let mut handler = completing();
    let start = r#"{"trace_id":"a","level":"info","msg":"start"}"#;
    let both = r#"{"trace_id":"a","level":"error","msg":"done"}"#;
    let next = r#"{"trace_id":"a","level":"info","msg":"next"}"#;
    assert!(line(&mut handler, start).is_empty());
    assert_eq!(line(&mut handler, both), vec![start.to_string(), both.to_string()]);
    assert_eq!(handler.store().len(), 0);
    // the id starts over as pending
    assert!(line(&mut handler, next).is_empty());
    assert_eq!(handler.store().len(), 1);
}

#[test]
fn completion_ends_a_triggered_transaction() {
    let mut handler = completing();
    let boom = r#"{"trace_id":"a","level":"error","msg":"boom"}"#;
    let done = r#"{"trace_id":"a","level":"info","msg":"done"}"#;
    let next = r#"{"trace_id":"a","level":"info","msg":"next"}"#;
    assert_eq!(line(&mut handler, boom), vec![boom.to_string()]);
    assert_eq!(line(&mut handler, done), vec![done.to_string()]);
    assert_eq!(handler.store().len(), 0);
    assert!(line(&mut handler, next).is_empty());
}

#[test]
fn completing_first_line_leaves_nothing_behind() {
    let mut handler = completing();
    assert!(line(&mut handler, r#"{"trace_id":"a","msg":"done"}"#).is_empty());
    assert_eq!(handler.store().len(), 0);
}

#[test]
fn shutdown_asks_to_stop_and_changes_nothing() {
    let mut handler = TrxHandler::new(TrxConfig::default());
    assert!(line(&mut handler, r#"{"trace_id":"a","level":"info"}"#).is_empty());
    assert!(handler.observe(Message::Shutdown).is_none());
    assert_eq!(handler.store().len(), 1);
    assert!(handler.observe(Message::Cleanup(0)).is_some());
}

#[test]
fn handle_record_applies_the_rules() {
    let mut handler = completing();
    let info = r#"{"trace_id":"a","level":"info"}"#;
    let boom = r#"{"trace_id":"a","level":"Error"}"#;
    assert!(handler.handle_record(parsed(10, info)).is_empty());
    assert_eq!(handler.handle_record(parsed(20, boom)), vec![info.to_string(), boom.to_string()]);
    assert_eq!(
        handler.handle_record(parsed(30, r#"{"trace_id":"a","msg":"DONE"}"#)),
        vec![r#"{"trace_id":"a","msg":"DONE"}"#.to_string()]
    );
    assert_eq!(handler.store().len(), 0);
}

#[test]
fn apply_follows_the_given_matches_not_the_document() {
    let mut handler = TrxHandler::new(TrxConfig::default());
    let boom = parsed(10, r#"{"trace_id":"a","level":"error"}"#);
    assert!(handler.apply(boom, false, false).is_empty());
    assert_eq!(
        handler.apply(record("a", 20, "plain"), true, false),
        vec![r#"{"trace_id":"a","level":"error"}"#.to_string(), "plain".to_string()]
    );
}

#[test]
fn configured_id_field_and_timeout_are_used() {
    let conf = TrxConfig::from(Config {
        id_field: Some("req".to_string()),
        cleanup_interval: None,
        timeout: Some(10),
        flush_triggers: vec![rule("status", FieldMatcher::IntOneOf(vec![500, 503]))],
        completion_triggers: None,
    });
    let mut handler = TrxHandler::new(conf);
    let first = r#"{"req":"r1","status":200}"#;
    assert!(line(&mut handler, first).is_empty());
    assert_eq!(
        line(&mut handler, r#"{"trace_id":"r1","status":503}"#),
        vec![r#"{"trace_id":"r1","status":503}"#.to_string()]
    );
    let bad = r#"{"req":"r1","status":503}"#;
    assert_eq!(line(&mut handler, bad), vec![first.to_string(), bad.to_string()]);
    handler.apply(record("r2", 100, "held"), false, false);
    handler.observe(Message::Cleanup(110));
    assert!(handler.store().contains(&key("r2")));
    handler.observe(Message::Cleanup(111));
    assert!(!handler.store().contains(&key("r2")));
}

#[test]
fn regex_rule_flushes() {
    let mut conf = TrxConfig::default();
    conf.flush_triggers = vec![rule("msg", FieldMatcher::regex("panic|abort").unwrap())];
    let mut handler = TrxHandler::new(conf);
    let calm = r#"{"trace_id":"a","level":"error","msg":"fine"}"#;
    let panic = r#"{"trace_id":"a","level":"info","msg":"thread PANICKED"}"#;
    assert!(line(&mut handler, calm).is_empty());
    assert_eq!(line(&mut handler, panic), vec![calm.to_string(), panic.to_string()]);
}
