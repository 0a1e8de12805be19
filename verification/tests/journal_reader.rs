use system_agent::json::JsonValue;
use system_agent::logs::{journal_entry, timestamp_seconds, LogError, LogTracer};

fn record(ts: &str, priority: &str, message: &str) -> String {
    format!(
        "{{\"__REALTIME_TIMESTAMP\":\"{}\",\"MESSAGE\":\"{}\",\"_HOSTNAME\":\"h1\",\"PRIORITY\":\"{}\",\"SYSLOG_IDENTIFIER\":\"sshd\",\"_PID\":\"812\",\"_SYSTEMD_UNIT\":\"ssh.service\"}}",
        ts, message, priority
    )
}

#[test]
fn first_reading_asks_for_the_last_thousand_records() {
    let t = LogTracer::new();
    assert_eq!(t.journal_args(), vec!["-o", "json", "-n", "1000"]);
}

#[test]
fn a_journal_line_is_read() {
    let t = LogTracer::new();
    let e = t.parse_journal_entry(&record("1700000000123456", "6", "Failed password for root")).unwrap();
    assert_eq!(e.timestamp, 1_700_000_000_123_456);
    assert_eq!(e.message, "Failed password for root");
    assert_eq!(e.hostname, "h1");
    assert_eq!(e.priority, 6);
    assert_eq!(e.syslog_identifier, "sshd");
    assert_eq!(e.pid, 812);
    assert_eq!(e.unit, "ssh.service");
    assert!(!e.datetime.is_empty());
}

#[test]
fn a_line_that_is_not_json_is_refused() {
    let t = LogTracer::new();
    assert!(matches!(t.parse_journal_entry("not json"), Err(LogError::InvalidJson)));
}

#[test]
fn missing_fields_take_their_defaults() {
    let t = LogTracer::new();
    let e = t.parse_journal_entry("{}").unwrap();
    assert_eq!(e.timestamp, 0);
    assert_eq!(e.priority, 6);
    assert_eq!(e.pid, 0);
    assert_eq!(e.message, "");
    let e = t.parse_journal_entry("{\"PRIORITY\":\"-1\",\"_PID\":\"2147483648\",\"MESSAGE\":5}").unwrap();
    assert_eq!(e.priority, 6);
    assert_eq!(e.pid, 0);
    assert_eq!(e.message, "");
    let e = t.parse_journal_entry("{\"PRIORITY\":\"+4\",\"_PID\":\"-5\"}").unwrap();
    assert_eq!(e.priority, 4);
    assert_eq!(e.pid, -5);
}

#[test]
fn seconds_round_toward_zero() {
    assert_eq!(timestamp_seconds(1_999_999), 1);
    assert_eq!(timestamp_seconds(-1_500_000), -1);
    assert_eq!(timestamp_seconds(i64::MIN), -9_223_372_036_854);
}

#[test]
fn without_a_local_time_the_seconds_are_written() {
    let v = JsonValue::Object(vec![(
        "__REALTIME_TIMESTAMP".to_string(),
        JsonValue::Text("-1500000".to_string()),
    )]);
    let e = journal_entry(&v, None);
    assert_eq!(e.timestamp, -1_500_000);
    assert_eq!(e.datetime, "-1");
    let e = journal_entry(&v, Some("local".to_string()));
    assert_eq!(e.datetime, "local");
}

#[test]
fn urgent_and_matching_records_are_kept() {
    let mut t = LogTracer::new();
    let output = format!(
        "{}\n{}\nnot json\n{}\n{}\n",
        record("1000000000", "6", "Failed password for root"),
        record("3000000000", "3", "disk full"),
        record("5000000000", "6", "all good"),
        record("2000000000", "6", "kernel: segfault at 0"),
    );
    let logs = t.process_journal_output(&output);
    let messages: Vec<&str> = logs.iter().map(|e| e.message.as_str()).collect();
    assert_eq!(messages, vec!["Failed password for root", "disk full", "kernel: segfault at 0"]);
    assert_eq!(t.journal_args(), vec!["-o", "json", "--since", "@5000"]);
}

#[test]
fn at_most_a_thousand_records_are_returned() {
    let mut t = LogTracer::new();
    let mut output = String::new();
    for i in 1..=1005 {
        output.push_str(&record(&i.to_string(), "2", "boom"));
        output.push('\n');
    }
    let logs = t.process_journal_output(&output);
    assert_eq!(logs.len(), 1000);
    assert_eq!(logs[0].timestamp, 1);
    assert_eq!(logs[999].timestamp, 1000);
    assert_eq!(t.journal_args(), vec!["-o", "json", "--since", "@0"]);
}

#[test]
fn older_records_do_not_move_the_reading_position_back() {
    let mut t = LogTracer::new();
    t.process_journal_output(&record("5000000000", "6", "x"));
    t.process_journal_output(&record("1000000000", "6", "y"));
    assert_eq!(t.journal_args(), vec!["-o", "json", "--since", "@5000"]);
}
