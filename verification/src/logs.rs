//! Journal records: reading the JSON lines of `journalctl -o json`, keeping
//! the records worth reporting, and remembering where the last reading ended.

use vstd::prelude::*;
use crate::json::{get_str_field, json_document, parse_json, str_field, JsonValue};
use crate::models::strings_view;
use crate::text::{
    chars_of, lines, lines_of, parse_int, parse_signed, parse_uint, parse_unsigned,
    push_signed_decimal, signed_decimal, string_of, views,
};

verus! {

/// The largest number of records that one reading returns.
pub const MAX_LOG_ENTRIES: usize = 1000;

/// A journal record.
pub struct LogEntry {
    /// `__REALTIME_TIMESTAMP`: microseconds since the Unix epoch.
    pub timestamp: i64,
    /// The time of the record in the local time zone, RFC 3339; the number
    /// of seconds when it has no single local time.
    pub datetime: String,
    pub message: String,
    pub hostname: String,
    /// Syslog priority, 0 (emergency) to 7 (debug).
    pub priority: u8,
    pub syslog_identifier: String,
    pub pid: i32,
    pub unit: String,
}

/// A journal record, without its local time.
pub struct JournalRecord {
    pub timestamp: i64,
    pub message: Seq<char>,
    pub hostname: Seq<char>,
    pub priority: u8,
    pub syslog_identifier: Seq<char>,
    pub pid: i32,
    pub unit: Seq<char>,
}

/// The record of an entry, without its local time.
pub open spec fn record_of(e: LogEntry) -> JournalRecord {
    JournalRecord {
        timestamp: e.timestamp,
        message: e.message@,
        hostname: e.hostname@,
        priority: e.priority,
        syslog_identifier: e.syslog_identifier@,
        pid: e.pid,
        unit: e.unit@,
    }
}

/// The records of a sequence of entries.
pub open spec fn records_of(v: Seq<LogEntry>) -> Seq<JournalRecord> {
    v.map_values(|e: LogEntry| record_of(e))
}

/// The text of a string field, empty when it is missing.
pub open spec fn text_field(v: JsonValue, key: Seq<char>) -> Seq<char> {
    match str_field(v, key) {
        Some(t) => t,
        None => seq![],
    }
}

/// The value of a string field that holds a signed number in
/// `min..=max`, or `default` when it is missing or not such a number.
pub open spec fn int_field(v: JsonValue, key: Seq<char>, min: int, max: int, default: int) -> int {
    match str_field(v, key) {
        Some(t) => match parse_int(t, min, max) {
            Some(n) => n,
            None => default,
        },
        None => default,
    }
}

/// The record that a journal object describes: its realtime timestamp and
/// process id (0 when missing or not numbers), its priority (6, for
/// information, when missing or not a number), and its message, host name,
/// syslog identifier and unit (empty when missing).
pub open spec fn journal_record(v: JsonValue) -> JournalRecord {
    JournalRecord {
        timestamp: int_field(v, "__REALTIME_TIMESTAMP"@, i64::MIN as int, i64::MAX as int, 0) as i64,
        message: text_field(v, "MESSAGE"@),
        hostname: text_field(v, "_HOSTNAME"@),
        priority: match str_field(v, "PRIORITY"@) {
            Some(t) => match parse_uint(t, u8::MAX as nat) {
                Some(n) => n as u8,
                None => 6,
            },
            None => 6,
        },
        syslog_identifier: text_field(v, "SYSLOG_IDENTIFIER"@),
        pid: int_field(v, "_PID"@, i32::MIN as int, i32::MAX as int, 0) as i32,
        unit: text_field(v, "_SYSTEMD_UNIT"@),
    }
}

/// Integer division rounding toward zero, as Rust's `/` on signed integers.
pub open spec fn div_toward_zero(a: int, b: int) -> int {
    if a >= 0 {
        a / b
    } else {
        -((-a) / b)
    }
}

/// The local time of a record: the text of the local time when there is a
/// single one, else the number of seconds.
pub open spec fn entry_datetime(local: Option<Seq<char>>, secs: int) -> Seq<char> {
    match local {
        Some(s) => s,
        None => signed_decimal(secs),
    }
}

/// The text of a field, empty when it is missing.
fn text_field_of(v: &JsonValue, key: &str) -> (r: String)
    ensures
        r@ == text_field(*v, key@),
{
    match get_str_field(v, key) {
        Some(t) => t,
        None => String::new(),
    }
}

/// The value of a field holding a signed number, or `default`.
fn int_field_of(v: &JsonValue, key: &str, min: i64, max: i64, default: i64) -> (r: i64)
    requires
        min <= 0 <= max,
    ensures
        r as int == int_field(*v, key@, min as int, max as int, default as int),
{
    match get_str_field(v, key) {
        Some(t) => match parse_signed(&chars_of(t.as_str()), min, max) {
            Some(n) => n,
            None => default,
        },
        None => default,
    }
}

/// The realtime timestamp of a journal object.
pub fn journal_timestamp(v: &JsonValue) -> (r: i64)
    ensures
        r == journal_record(*v).timestamp,
{
    int_field_of(v, "__REALTIME_TIMESTAMP", -9223372036854775808i64, 9223372036854775807i64, 0)
}

/// Seconds of a microsecond timestamp, rounded toward zero.
pub fn timestamp_seconds(micros: i64) -> (r: i64)
    ensures
        r as int == div_toward_zero(micros as int, 1_000_000),
{
    if micros >= 0 {
        micros / 1_000_000
    } else {
        let magnitude: u64 = ((-(micros + 1)) as u64) + 1;
        -((magnitude / 1_000_000) as i64)
    }
}

/// The entry that a journal object describes, given the local time of its
/// timestamp (`None` when it has no single local time).
pub fn journal_entry(v: &JsonValue, local_time: Option<String>) -> (r: LogEntry)
    ensures
        record_of(r) == journal_record(*v),
        r.datetime@ == entry_datetime(
            match local_time {
                Some(s) => Some(s@),
                None => None,
            },
            div_toward_zero(journal_record(*v).timestamp as int, 1_000_000),
        ),
{
    let timestamp = journal_timestamp(v);
    let datetime = match local_time {
        Some(s) => s,
        None => {
            let mut s = String::new();
            push_signed_decimal(&mut s, timestamp_seconds(timestamp));
            assert(s@ =~= signed_decimal(div_toward_zero(timestamp as int, 1_000_000)));
            s
        },
    };
    let priority: u8 = match get_str_field(v, "PRIORITY") {
        Some(t) => match parse_unsigned(&chars_of(t.as_str()), 255u64) {
            Some(n) => n as u8,
            None => 6,
        },
        None => 6,
    };
    let pid = int_field_of(v, "_PID", -2147483648i64, 2147483647i64, 0);
    LogEntry {
        timestamp,
        datetime,
        message: text_field_of(v, "MESSAGE"),
        hostname: text_field_of(v, "_HOSTNAME"),
        priority,
        syslog_identifier: text_field_of(v, "SYSLOG_IDENTIFIER"),
        pid: pid as i32,
        unit: text_field_of(v, "_SYSTEMD_UNIT"),
    }
}

/// What `chrono::Local.timestamp_opt(secs, 0)` yields, written in RFC 3339
/// when it is a single time.
#[verifier::external_body]
fn local_time_text(secs: i64) -> Option<String> {
    match chrono::TimeZone::timestamp_opt(&chrono::Local, secs, 0) {
        chrono::LocalResult::Single(dt) => Some(dt.to_rfc3339()),
        chrono::LocalResult::Ambiguous(_, _) => None,
        chrono::LocalResult::None => None,
    }
}

/// Whether `regex::Regex::new(pattern)` compiles (`Some`) and, if so, what
/// its `is_match(text)` returns.
pub uninterp spec fn regex_match(pattern: Seq<char>, text: Seq<char>) -> Option<bool>;

/// Calls `regex::Regex::new(pattern)` and, when it compiles, `is_match(text)`
/// on it; the contract names the result and claims nothing of regular
/// expression syntax.
#[verifier::external_body]
fn regex_is_match(pattern: &str, text: &str) -> (r: Option<bool>)
    ensures
        r == regex_match(pattern@, text@),
{
    match regex::Regex::new(pattern) {
        Ok(re) => Some(re.is_match(text)),
        Err(_) => None,
    }
}

/// Whether a message matches one of the patterns.
pub open spec fn interesting(patterns: Seq<Seq<char>>, message: Seq<char>) -> bool {
    exists|i: int| 0 <= i < patterns.len() && #[trigger] regex_match(patterns[i], message) == Some(true)
}

/// Whether a record is reported: its priority is warning or more urgent, or
/// its message matches one of the patterns.
pub open spec fn is_kept(r: JournalRecord, patterns: Seq<Seq<char>>) -> bool {
    r.priority <= 4 || interesting(patterns, r.message)
}

/// The records of the lines that are JSON documents, in order.
pub open spec fn journal_records(ls: Seq<Seq<char>>) -> Seq<JournalRecord>
    decreases ls.len(),
{
    if ls.len() == 0 {
        seq![]
    } else {
        journal_records(ls.drop_last()) + match json_document(ls.last()) {
            Some(v) => seq![journal_record(v)],
            None => seq![],
        }
    }
}

/// The records that are reported, in order.
pub open spec fn kept_records(rs: Seq<JournalRecord>, patterns: Seq<Seq<char>>) -> Seq<JournalRecord>
    decreases rs.len(),
{
    if rs.len() == 0 {
        seq![]
    } else {
        kept_records(rs.drop_last(), patterns) + if is_kept(rs.last(), patterns) {
            seq![rs.last()]
        } else {
            seq![]
        }
    }
}

/// The latest of `last` and the timestamps of the records.
pub open spec fn newest_timestamp(last: i64, rs: Seq<JournalRecord>) -> i64
    decreases rs.len(),
{
    if rs.len() == 0 {
        last
    } else {
        let m = newest_timestamp(last, rs.drop_last());
        if rs.last().timestamp > m {
            rs.last().timestamp
        } else {
            m
        }
    }
}

/// At most the first [`MAX_LOG_ENTRIES`] records.
pub open spec fn limited(rs: Seq<JournalRecord>) -> Seq<JournalRecord> {
    if rs.len() > MAX_LOG_ENTRIES {
        rs.take(MAX_LOG_ENTRIES as int)
    } else {
        rs
    }
}

/// The reading position never moves back: it is at least where it was and
/// at least the timestamp of every record read.
pub proof fn law_journal_position_never_moves_back(last: i64, rs: Seq<JournalRecord>)
    ensures
        newest_timestamp(last, rs) >= last,
        forall|i: int| 0 <= i < rs.len() ==> newest_timestamp(last, rs) >= (#[trigger] rs[i]).timestamp,
    decreases rs.len(),
{
    if rs.len() > 0 {
        law_journal_position_never_moves_back(last, rs.drop_last());
        assert forall|i: int| 0 <= i < rs.len() implies newest_timestamp(last, rs) >= (
        #[trigger] rs[i]).timestamp by {
            if i < rs.len() - 1 {
                assert(rs[i] == rs.drop_last()[i]);
            }
        }
    }
}

/// Every record reported is one of the records read, in the same order,
/// and is either urgent or matches a pattern.
pub proof fn lemma_kept_records(rs: Seq<JournalRecord>, patterns: Seq<Seq<char>>)
    ensures
        kept_records(rs, patterns).len() <= rs.len(),
        forall|k: int|
            0 <= k < kept_records(rs, patterns).len() ==> is_kept(
                #[trigger] kept_records(rs, patterns)[k],
                patterns,
            ) && exists|j: int| 0 <= j < rs.len() && rs[j] == kept_records(rs, patterns)[k],
    decreases rs.len(),
{
    if rs.len() > 0 {
        let rest = rs.drop_last();
        lemma_kept_records(rest, patterns);
        let kp = kept_records(rest, patterns);
        let k2 = kept_records(rs, patterns);
        assert forall|k: int| 0 <= k < k2.len() implies is_kept(#[trigger] k2[k], patterns) && exists|
            j: int,
        | 0 <= j < rs.len() && rs[j] == k2[k] by {
            if k < kp.len() {
                assert(k2[k] == kp[k]);
                let j = choose|j: int| 0 <= j < rest.len() && rest[j] == kp[k];
                assert(rs[j] == rest[j]);
            } else {
                assert(k2[k] == rs.last());
                assert(rs[rs.len() - 1] == rs.last());
            }
        }
    }
}

/// A reading reports at most [`MAX_LOG_ENTRIES`] records, each of them one
/// of the records read that is either urgent or matches a pattern.
pub proof fn law_reported_records_are_kept(rs: Seq<JournalRecord>, patterns: Seq<Seq<char>>)
    ensures
        limited(kept_records(rs, patterns)).len() <= MAX_LOG_ENTRIES,
        forall|k: int|
            0 <= k < limited(kept_records(rs, patterns)).len() ==> is_kept(
                #[trigger] limited(kept_records(rs, patterns))[k],
                patterns,
            ) && exists|j: int|
                0 <= j < rs.len() && rs[j] == limited(kept_records(rs, patterns))[k],
{
    lemma_kept_records(rs, patterns);
    let kr = kept_records(rs, patterns);
    let l = limited(kr);
    assert forall|k: int| 0 <= k < l.len() implies is_kept(#[trigger] l[k], patterns) && exists|
        j: int,
    | 0 <= j < rs.len() && rs[j] == l[k] by {
        assert(l[k] == kr[k]);
    }
}

/// The patterns of messages that are reported whatever their priority.
pub open spec fn interesting_patterns() -> Seq<Seq<char>> {
    seq![
        "authentication failure"@,
        "Failed password"@,
        "segfault"@,
        "Permission denied"@,
        "ERROR"@,
        "CRITICAL"@,
        "WARNING"@,
        "fatal"@,
    ]
}

/// The arguments of `journalctl` for the next reading: the records since
/// the second of the last one read, or the last thousand records on the
/// first reading.
pub open spec fn journal_arguments(last: i64) -> Seq<Seq<char>> {
    if last > 0 {
        seq![
            "-o"@,
            "json"@,
            "--since"@,
            seq!['@'] + signed_decimal(div_toward_zero(last as int, 1_000_000)),
        ]
    } else {
        seq!["-o"@, "json"@, "-n"@, "1000"@]
    }
}

/// Failures of reading a journal record.
#[derive(Debug, PartialEq, Eq)]
pub enum LogError {
    /// The line is not a JSON document.
    InvalidJson,
}

/// The state of the journal reader, as it sees it.
pub struct LogTracerView {
    pub last_timestamp: i64,
    pub patterns: Seq<Seq<char>>,
}

/// Reads the journal, a reading at a time, each from where the last ended.
pub struct LogTracer {
    /// Timestamp of the latest record read so far, 0 before the first.
    last_timestamp: i64,
    /// Patterns of messages that are reported whatever their priority.
    patterns: Vec<String>,
}

impl View for LogTracer {
    type V = LogTracerView;

    closed spec fn view(&self) -> LogTracerView {
        LogTracerView { last_timestamp: self.last_timestamp, patterns: strings_view(self.patterns@) }
    }
}

impl LogTracer {
    /// A reader that has read nothing yet.
    pub fn new() -> (r: LogTracer)
        ensures
            r@.last_timestamp == 0,
            r@.patterns == interesting_patterns(),
    {
        let mut patterns: Vec<String> = Vec::new();
        patterns.push(String::from_str("authentication failure"));
        patterns.push(String::from_str("Failed password"));
        patterns.push(String::from_str("segfault"));
        patterns.push(String::from_str("Permission denied"));
        patterns.push(String::from_str("ERROR"));
        patterns.push(String::from_str("CRITICAL"));
        patterns.push(String::from_str("WARNING"));
        patterns.push(String::from_str("fatal"));
        let r = LogTracer { last_timestamp: 0, patterns };
        assert(strings_view(r.patterns@) =~= interesting_patterns());
        r
    }

    /// The arguments of `journalctl` for the next reading.
    pub fn journal_args(&self) -> (r: Vec<String>)
        ensures
            strings_view(r@) == journal_arguments(self@.last_timestamp),
    {
        let mut r: Vec<String> = Vec::new();
        r.push(String::from_str("-o"));
        r.push(String::from_str("json"));
        if self.last_timestamp > 0 {
            r.push(String::from_str("--since"));
            let mut since = String::new();
            since.push('@');
            push_signed_decimal(&mut since, timestamp_seconds(self.last_timestamp));
            r.push(since);
        } else {
            r.push(String::from_str("-n"));
            r.push(String::from_str("1000"));
        }
        assert(strings_view(r@) =~= journal_arguments(self@.last_timestamp));
        r
    }

    /// Reads one line of `journalctl -o json`. The local time of the entry
    /// comes from the machine's time zone, of which nothing is claimed; the
    /// other fields are those of [`journal_record`].
    pub fn parse_journal_entry(&self, json_str: &str) -> (r: Result<LogEntry, LogError>)
        ensures
            match r {
                Ok(e) => json_document(json_str@) matches Some(v) && record_of(e) == journal_record(
                    v,
                ),
                Err(err) => err == LogError::InvalidJson && json_document(json_str@) is None,
            },
    {
        match parse_json(json_str) {
            Some(v) => {
                let seconds = timestamp_seconds(journal_timestamp(&v));
                let local = local_time_text(seconds);
                Ok(journal_entry(&v, local))
            },
            None => Err(LogError::InvalidJson),
        }
    }

    /// Whether the message of an entry matches one of the patterns; a
    /// pattern that does not compile matches nothing.
    pub fn is_interesting_log(&self, entry: &LogEntry) -> (r: bool)
        ensures
            r == interesting(self@.patterns, entry.message@),
    {
        let ghost pv = strings_view(self.patterns@);
        let mut i: usize = 0;
        while i < self.patterns.len()
            invariant
                pv == strings_view(self.patterns@),
                i <= pv.len(),
                forall|j: int| 0 <= j < i ==> #[trigger] regex_match(pv[j], entry.message@) != Some(
                    true,
                ),
            decreases pv.len() - i,
        {
            assert(pv[i as int] == self.patterns@[i as int]@);
            match regex_is_match(self.patterns[i].as_str(), entry.message.as_str()) {
                Some(true) => {
                    return true;
                },
                _ => {},
            }
            i = i + 1;
        }
        false
    }

    /// Reads the output of `journalctl -o json`: the entries of its lines
    /// that are JSON documents and are reported, at most
    /// [`MAX_LOG_ENTRIES`] of them, in order; the latest timestamp seen is
    /// kept for the next reading.
    pub fn process_journal_output(&mut self, output: &str) -> (r: Vec<LogEntry>)
        ensures
            records_of(r@) == limited(
                kept_records(journal_records(lines(output@)), old(self)@.patterns),
            ),
            final(self)@.last_timestamp == newest_timestamp(
                old(self)@.last_timestamp,
                journal_records(lines(output@)),
            ),
            final(self)@.patterns == old(self)@.patterns,
    {
        let text = chars_of(output);
        let ls = lines_of(&text);
        let ghost lv = views(ls@);
        let ghost patterns = self@.patterns;
        let mut logs: Vec<LogEntry> = Vec::new();
        let mut newest = self.last_timestamp;
        let mut i: usize = 0;
        assert(lv.take(0) =~= Seq::<Seq<char>>::empty());
        while i < ls.len()
            invariant
                lv == views(ls@),
                i <= lv.len(),
                patterns == self@.patterns,
                self@.patterns == old(self)@.patterns,
                self@.last_timestamp == old(self)@.last_timestamp,
                records_of(logs@) == kept_records(journal_records(lv.take(i as int)), patterns),
                newest == newest_timestamp(
                    old(self)@.last_timestamp,
                    journal_records(lv.take(i as int)),
                ),
            decreases lv.len() - i,
        {
            let ghost t = lv.take(i + 1);
            assert(t.drop_last() =~= lv.take(i as int));
            assert(t.last() == ls@[i as int]@);
            let ghost before = logs@;
            let ghost recs = journal_records(lv.take(i as int));
            let line = string_of(&ls[i]);
            match self.parse_journal_entry(line.as_str()) {
                Ok(entry) => {
                    assert(journal_records(t) =~= recs.push(record_of(entry)));
                    assert(recs.push(record_of(entry)).drop_last() =~= recs);
                    if entry.timestamp > newest {
                        newest = entry.timestamp;
                    }
                    if entry.priority <= 4 || self.is_interesting_log(&entry) {
                        logs.push(entry);
                        assert(records_of(logs@) =~= records_of(before).push(record_of(entry)));
                    }
                },
                Err(_) => {
                    assert(journal_records(t) =~= recs);
                },
            }
            i = i + 1;
        }
        assert(lv.take(lv.len() as int) =~= lv);
        if logs.len() > MAX_LOG_ENTRIES {
            logs.truncate(MAX_LOG_ENTRIES);
            assert(records_of(logs@) =~= limited(kept_records(journal_records(lv), patterns)));
        }
        self.last_timestamp = newest;
        logs
    }
}

} // verus!

verus! {

/// A record is reported exactly when its priority is warning (4) or more
/// urgent, or its message matches one of the patterns; a record of priority
/// 5 or more whose message matches no pattern is not.
pub proof fn law_which_records_are_kept(r: JournalRecord, patterns: Seq<Seq<char>>)
    ensures
        r.priority <= 4 ==> is_kept(r, patterns),
        (r.priority > 4 && forall|i: int|
            0 <= i < patterns.len() ==> #[trigger] regex_match(patterns[i], r.message) != Some(true))
            ==> !is_kept(r, patterns),
        (exists|i: int| 0 <= i < patterns.len() && #[trigger] regex_match(patterns[i], r.message)
            == Some(true)) ==> is_kept(r, patterns),
{
}

/// The first reading asks for the last thousand records; a later one for
/// the records since the second of the latest record read.
pub proof fn law_journal_arguments(last: i64)
    ensures
        last <= 0 ==> journal_arguments(last) == seq!["-o"@, "json"@, "-n"@, "1000"@],
        last > 0 ==> journal_arguments(last) == seq![
            "-o"@,
            "json"@,
            "--since"@,
            seq!['@'] + signed_decimal(last / 1_000_000),
        ],
{
}

} // verus!
