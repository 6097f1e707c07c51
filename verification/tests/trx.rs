use fingerscrossed::clock::millis_of;
use fingerscrossed::clock::unix_millis;
use fingerscrossed::trx::LogLine;
use fingerscrossed::trx::LogLineParser;
use fingerscrossed::trx::ParseError;
use fingerscrossed::trx::Transaction;
use fingerscrossed::trx::TrxStore;
use serde_json::Value;
use std::time::Duration;
use std::time::SystemTime;

fn record(id: &str, at: u128, text: &str) -> LogLine {
    LogLine::new(id.to_string(), at, text.to_string(), Value::Null)
}

fn parser() -> LogLineParser {
    LogLineParser { trx_id_field: "trace_id".to_string() }
}

#[test]
fn test_log_line_parser() {
    let parser = LogLineParser {
        trx_id_field: "trace_id".to_string(),
    };

    let line = r#"{"trace_id": "123", "message": "test"}"#;
    let result = parser.parse(line);
    assert!(result.is_ok());

    let log_line = result.unwrap();
    assert_eq!(log_line.trace_id(), "123");
}

#[test]
fn test_transaction_age() {
    let transaction = Transaction::new();
    let now = 1000;
    assert_eq!(transaction.age(now), 0);
}

#[test]
fn test_transaction_add_line() {
    let mut fields = serde_json::Map::new();
    fields.insert("trace_id".to_string(), Value::String("123".to_string()));
    fields.insert("message".to_string(), Value::String("test".to_string()));
    let line = Value::Object(fields);
    let mut transaction = Transaction::new();
    let log_line = LogLine::new("123".to_string(), 1000, line.to_string(), line);
    transaction.add(log_line.clone());
    assert_eq!(transaction.log_lines().len(), 1);
    assert_eq!(transaction.log_lines()[0].trace_id(), "123");
}

#[test]
fn parsed_record_keeps_the_line_as_it_was() {
    let line = "  {\"trace_id\" : \"abc\",   \"n\": 1 }  ";
    let log_line = parser().parse_at(line, 42).unwrap();
    assert_eq!(log_line.line(), line);
    assert_eq!(log_line.trace_id(), "abc");
    assert_eq!(log_line.received_at(), 42);
    assert_eq!(log_line.json_line().get("n").and_then(|n| n.as_i64()), Some(1));
}

#[test]
fn parse_stamps_the_present_time() {
    let before = unix_millis();
    let log_line = parser().parse(r#"{"trace_id":"abc"}"#).unwrap();
    let after = unix_millis();
    assert!(before <= log_line.received_at());
    assert!(log_line.received_at() <= after);
    // the clock is well past the year 2001
    assert!(before > 1_000_000_000_000);
}

#[test]
fn millis_of_a_span_and_of_none() {
    assert_eq!(millis_of(Ok(Duration::from_millis(1234))), 1234);
    assert_eq!(millis_of(Ok(Duration::from_micros(1999))), 1);
    assert_eq!(millis_of(Ok(Duration::from_secs(3))), 3000);
    let later = SystemTime::UNIX_EPOCH + Duration::from_secs(10);
    assert_eq!(millis_of(SystemTime::UNIX_EPOCH.duration_since(later)), 0);
    assert_eq!(millis_of(later.duration_since(SystemTime::UNIX_EPOCH)), 10_000);
}

#[test]
fn parse_rejects_what_is_not_json() {
    assert_eq!(parser().parse_at("not json", 0).unwrap_err(), ParseError::Malformed);
    assert_eq!(parser().parse_at("", 0).unwrap_err(), ParseError::Malformed);
    assert_eq!(parser().parse_at("{\"trace_id\":\"a\"", 0).unwrap_err(), ParseError::Malformed);
    assert_eq!(
        parser().parse_at("{\"trace_id\":\"a\"} trailing", 0).unwrap_err(),
        ParseError::Malformed
    );
    assert_eq!(parser().parse("{").unwrap_err(), ParseError::Malformed);
}

#[test]
fn parse_rejects_a_missing_or_non_string_id() {
    let missing = ParseError::MissingTraceId;
    assert_eq!(parser().parse_at(r#"{"level":"error"}"#, 0).unwrap_err(), missing);
    assert_eq!(parser().parse_at(r#"{"trace_id":17}"#, 0).unwrap_err(), missing);
    assert_eq!(parser().parse_at(r#"{"trace_id":null}"#, 0).unwrap_err(), missing);
    assert_eq!(parser().parse_at(r#"{"trace_id":["a"]}"#, 0).unwrap_err(), missing);
    assert_eq!(parser().parse_at(r#"{"ctx":{"trace_id":"a"}}"#, 0).unwrap_err(), missing);
    assert_eq!(parser().parse_at(r#"["trace_id","a"]"#, 0).unwrap_err(), missing);
    assert_eq!(parser().parse_at(r#""trace_id""#, 0).unwrap_err(), missing);
    assert_eq!(parser().parse_at("17", 0).unwrap_err(), missing);
}

#[test]
fn parse_reads_the_configured_field() {
    let parser = LogLineParser { trx_id_field: "request".to_string() };
    let line = r#"{"trace_id":"t","request":"r"}"#;
    assert_eq!(parser.parse_at(line, 0).unwrap().trace_id(), "r");
    assert!(parser.parse_at(r#"{"trace_id":"t"}"#, 0).is_err());
}

#[test]
fn parse_accepts_an_empty_id() {
    let log_line = parser().parse_at(r#"{"trace_id":""}"#, 0).unwrap();
    assert_eq!(log_line.trace_id(), "");
}

#[test]
fn extract_takes_the_document_as_given() {
    let mut fields = serde_json::Map::new();
    fields.insert("trace_id".to_string(), Value::String("xyz".to_string()));
    let log_line = parser().extract("raw text", Value::Object(fields), 7).unwrap();
    assert_eq!(log_line.trace_id(), "xyz");
    assert_eq!(log_line.line(), "raw text");
    assert_eq!(log_line.received_at(), 7);
    assert_eq!(
        parser().extract("raw", Value::Object(serde_json::Map::new()), 7).unwrap_err(),
        ParseError::MissingTraceId
    );
}

#[test]
fn age_counts_from_the_newest_line() {
    let mut transaction = Transaction::new();
    transaction.add(record("a", 1000, "one"));
    assert_eq!(transaction.age(1500), 500);
    transaction.add(record("a", 1400, "two"));
    assert_eq!(transaction.age(1500), 100);
    assert_eq!(transaction.age(1400), 0);
    assert_eq!(transaction.age(1399), 0);
    assert_eq!(transaction.age(0), 0);
    assert_eq!(transaction.age(u128::MAX), u128::MAX - 1400);
}

#[test]
fn add_keeps_the_order_of_arrival() {
    let mut transaction = Transaction::new();
    assert!(!transaction.is_triggered());
    transaction.add(record("a", 3, "first"));
    transaction.add(record("a", 1, "second"));
    transaction.add(record("a", 2, "third"));
    let texts: Vec<&str> = transaction.log_lines().iter().map(|l| l.line().as_str()).collect();
    assert_eq!(texts, vec!["first", "second", "third"]);
    assert!(!transaction.is_triggered());
}

#[test]
fn trigger_hands_out_and_empties() {
    let mut transaction = Transaction::new();
    transaction.add(record("a", 1, "first"));
    transaction.add(record("a", 2, "second"));
    let out = transaction.trigger();
    assert_eq!(out, vec!["first".to_string(), "second".to_string()]);
    assert!(transaction.is_triggered());
    assert!(transaction.log_lines().is_empty());
    assert_eq!(transaction.age(1_000_000), 0);
}

#[test]
fn trigger_of_a_fresh_transaction_hands_out_nothing() {
    let mut transaction = Transaction::new();
    assert!(transaction.trigger().is_empty());
    assert!(transaction.is_triggered());
}

#[test]
fn store_creates_on_first_use_only() {
    let mut store = TrxStore::new(5000);
    assert_eq!(store.len(), 0);
    assert!(!store.contains(&"a".to_string()));
    let a1 = record("a", 1, "a1");
    assert!(store.get(&a1).log_lines().is_empty());
    store.get(&a1).add(a1.clone());
    assert_eq!(store.len(), 1);
    let a2 = record("a", 2, "a2");
    assert_eq!(store.get(&a2).log_lines().len(), 1);
    store.get(&a2).add(a2.clone());
    assert_eq!(store.len(), 1);
    assert_eq!(store.get(&a2).log_lines().len(), 2);
    let b1 = record("b", 3, "b1");
    assert!(store.get(&b1).log_lines().is_empty());
    assert_eq!(store.len(), 2);
    assert!(store.contains(&"a".to_string()));
    assert!(store.contains(&"b".to_string()));
    assert!(!store.contains(&"c".to_string()));
}

#[test]
fn store_remove_is_a_no_op_when_absent() {
    let mut store = TrxStore::new(5000);
    let a = record("a", 1, "a1");
    let b = record("b", 1, "b1");
    let c = record("c", 1, "c1");
    store.get(&a).add(a.clone());
    store.get(&b).add(b.clone());
    store.get(&c).add(c.clone());
    store.remove(&"zzz".to_string());
    assert_eq!(store.len(), 3);
    store.remove(&"a".to_string());
    assert_eq!(store.len(), 2);
    assert!(!store.contains(&"a".to_string()));
    assert!(store.contains(&"b".to_string()));
    assert!(store.contains(&"c".to_string()));
    assert_eq!(store.get(&b).log_lines()[0].line(), "b1");
    assert_eq!(store.get(&c).log_lines()[0].line(), "c1");
    store.remove(&"a".to_string());
    assert_eq!(store.len(), 2);
    // a removed id starts over
    assert!(store.get(&a).log_lines().is_empty());
}

#[test]
fn cleanup_evicts_strictly_after_the_timeout() {
    let mut store = TrxStore::new(5000);
    let a = record("a", 1000, "a1");
    store.get(&a).add(a.clone());
    store.cleanup(5999);
    assert!(store.contains(&"a".to_string()));
    store.cleanup(6000);
    assert!(store.contains(&"a".to_string()));
    store.cleanup(6001);
    assert!(!store.contains(&"a".to_string()));
    assert_eq!(store.len(), 0);
}

#[test]
fn cleanup_removes_every_expired_transaction_and_no_other() {
    let mut store = TrxStore::new(100);
    for (id, at) in [("a", 0u128), ("b", 500), ("c", 10), ("d", 450), ("e", 20), ("f", 30)] {
        let line = record(id, at, id);
        store.get(&line).add(line.clone());
    }
    store.cleanup(520);
    assert_eq!(store.len(), 2);
    assert!(store.contains(&"b".to_string()));
    assert!(store.contains(&"d".to_string()));
    let d = record("d", 0, "probe");
    assert_eq!(store.get(&d).log_lines()[0].line(), "d");
}

#[test]
fn cleanup_twice_changes_nothing_more() {
    let mut store = TrxStore::new(100);
    for (id, at) in [("a", 0u128), ("b", 500), ("c", 10), ("d", 450)] {
        let line = record(id, at, id);
        store.get(&line).add(line.clone());
    }
    store.cleanup(520);
    let after_first = store.len();
    let kept_b = store.contains(&"b".to_string());
    let kept_d = store.contains(&"d".to_string());
    store.cleanup(520);
    assert_eq!(store.len(), after_first);
    assert_eq!(store.len(), 2);
    assert_eq!(store.contains(&"b".to_string()), kept_b);
    assert_eq!(store.contains(&"d".to_string()), kept_d);
    assert!(!store.contains(&"a".to_string()));
}

#[test]
fn cleanup_spares_transactions_without_lines() {
    let mut store = TrxStore::new(0);
    let a = record("a", 0, "a");
    store.get(&a);
    let b = record("b", 0, "b");
    store.get(&b).trigger();
    store.cleanup(u128::MAX);
    assert_eq!(store.len(), 2);
}

#[test]
fn cleanup_before_the_newest_line_keeps_it() {
    let mut store = TrxStore::new(0);
    let a = record("a", 1000, "a");
    store.get(&a).add(a.clone());
    store.cleanup(10);
    assert!(store.contains(&"a".to_string()));
    store.cleanup(1000);
    assert!(store.contains(&"a".to_string()));
    store.cleanup(1001);
    assert!(!store.contains(&"a".to_string()));
}
