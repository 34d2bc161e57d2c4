use shrmpl::ascii::{contains_bytes, trim, trim_end};
use shrmpl::client::{classify_server_line, is_error_reply, is_not_found_reply, build_request,
    ServerLine};
use shrmpl::config::{parse_config, config_get};
use shrmpl::conn::{conn_step, ConnAction, ConnEvent, ConnState, HEARTBEAT_PERIOD_SECS,
    SWEEP_PERIOD_SECS};
use shrmpl::decimal::{fmt_i64, fmt_u64, fmt_u64_pad4, parse_i64, parse_u64};
use shrmpl::logclient::{level_of_tag, LogLevel, Logger};
use shrmpl::logproto::{format_record_line, get_queue, parse_line, ParseError};
use shrmpl::msgs::{line_heartbeat, line_term};
use shrmpl::protocol::{parse_expiration, parse_ttl, tokenize, split_semicolons};
use shrmpl::store::{Entry, Store, Value};

#[test]
fn decimal_round_trips() {
    assert_eq!(fmt_u64(0), b"0".to_vec());
    assert_eq!(fmt_u64(90126), b"90126".to_vec());
    assert_eq!(fmt_u64(u64::MAX), b"18446744073709551615".to_vec());
    assert_eq!(fmt_i64(-1), b"-1".to_vec());
    assert_eq!(fmt_i64(i64::MIN), b"-9223372036854775808".to_vec());
    assert_eq!(fmt_i64(i64::MAX), b"9223372036854775807".to_vec());
    assert_eq!(parse_u64(b"90126"), Some(90126));
    assert_eq!(parse_u64(b"18446744073709551615"), Some(u64::MAX));
    assert_eq!(parse_u64(b"18446744073709551616"), None);
    assert_eq!(parse_u64(b""), None);
    assert_eq!(parse_u64(b"12a"), None);
    assert_eq!(parse_i64(b"-9223372036854775808"), Some(i64::MIN));
    assert_eq!(parse_i64(b"-9223372036854775809"), None);
    assert_eq!(parse_i64(b"+17"), Some(17));
    assert_eq!(parse_i64(b"--1"), None);
    assert_eq!(fmt_u64_pad4(7), b"0007".to_vec());
    assert_eq!(fmt_u64_pad4(12345), b"12345".to_vec());
}

#[test]
fn ttl_grammar() {
    assert_eq!(parse_ttl(b"5s"), Some(5));
    assert_eq!(parse_ttl(b"2min"), Some(120));
    assert_eq!(parse_ttl(b"3h"), Some(10800));
    assert_eq!(parse_ttl(b"0s"), Some(0));
    assert_eq!(parse_ttl(b"5"), None);
    assert_eq!(parse_ttl(b"s"), None);
    assert_eq!(parse_ttl(b"min"), None);
    assert_eq!(parse_ttl(b"5ss"), None);
    assert_eq!(parse_ttl(b"5 s"), None);
    assert_eq!(parse_ttl(b"-5s"), None);
    assert_eq!(parse_ttl(b""), None);
    // scaling saturates instead of wrapping
    assert_eq!(parse_ttl(b"18446744073709551615min"), Some(u64::MAX));
    assert_eq!(parse_expiration("90s"), Some(90));
    assert_eq!(parse_expiration("nope"), None);
}

#[test]
fn tokenizer_and_splitter() {
    let toks = tokenize(b"  SET \t key  value ");
    let views: Vec<&[u8]> = toks.iter().map(|t| t.as_slice()).collect();
    assert_eq!(views, vec![b"SET".as_slice(), b"key".as_slice(), b"value".as_slice()]);
    assert_eq!(tokenize(b"").len(), 0);
    assert_eq!(tokenize(b"   ").len(), 0);
    let pieces = split_semicolons(b"a;;b");
    let views: Vec<&[u8]> = pieces.iter().map(|p| p.as_slice()).collect();
    assert_eq!(views, vec![b"a".as_slice(), b"".as_slice(), b"b".as_slice()]);
    assert_eq!(split_semicolons(b"").len(), 1);
}

#[test]
fn trimming() {
    assert_eq!(trim(b"  x  "), b"x");
    assert_eq!(trim_end(b"  x  "), b"  x");
    assert_eq!(trim(b" \t\r\n"), b"");
    assert_eq!(contains_bytes(b"ERROR key not found", b"key not found"), true);
    assert_eq!(contains_bytes(b"ERROR invalid length", b"key not found"), false);
}

#[test]
fn store_operations() {
    let mut s = Store::new();
    s.set(b"k".to_vec(), Value::Int(7), None);
    assert_eq!(s.get(b"k", 0), Some(Value::Int(7)));
    assert_eq!(s.get(b"missing", 0), None);
    assert_eq!(s.incr(b"k", None, 0), 8);
    assert_eq!(s.incr(b"fresh", Some(10), 100), 1);
    // fresh got now + ttl
    assert_eq!(s.get(b"fresh", 109), Some(Value::Int(1)));
    assert_eq!(s.get(b"fresh", 110), None);
    assert_eq!(s.delete(b"k", 0), true);
    assert_eq!(s.delete(b"k", 0), false);
}

#[test]
fn store_incr_wraps_at_the_top() {
    let mut s = Store::new();
    s.set(b"k".to_vec(), Value::Int(i64::MAX), None);
    assert_eq!(s.incr(b"k", None, 0), i64::MIN);
}

#[test]
fn store_sweep_purges_expired_entries() {
    let mut s = Store::new();
    s.set(b"a".to_vec(), Value::Int(1), Some(100));
    s.set(b"b".to_vec(), Value::Int(2), None);
    s.set(b"c".to_vec(), Value::Int(3), Some(200));
    s.sweep(100);
    assert_eq!(s.get(b"a", 0), None);
    assert_eq!(s.get(b"b", 0), Some(Value::Int(2)));
    assert_eq!(s.get(b"c", 0), Some(Value::Int(3)));
}

#[test]
fn store_list_snapshots_entries() {
    let mut s = Store::new();
    s.set(b"a".to_vec(), Value::Text(b"x".to_vec()), Some(5));
    let snap = s.list();
    assert_eq!(snap.len(), 1);
    assert_eq!(snap[0].0, b"a".to_vec());
    assert_eq!(snap[0].1, Entry { value: Value::Text(b"x".to_vec()), expires_at: Some(5) });
}

#[test]
fn connection_machine_replies_and_closes() {
    let mut store = Store::new();
    let (st, act) = conn_step(
        ConnState::Active,
        &ConnEvent::LineArrived(b"SET k v\n".to_vec()),
        &mut store,
        0,
    );
    assert_eq!(st, ConnState::Active);
    assert_eq!(act, ConnAction::WriteReply(b"OK\n".to_vec()));

    let (st, act) = conn_step(
        ConnState::Active,
        &ConnEvent::LineArrived(b"  \r\n".to_vec()),
        &mut store,
        0,
    );
    assert_eq!(st, ConnState::Active);
    assert_eq!(act, ConnAction::Idle);

    let (st, act) = conn_step(ConnState::Active, &ConnEvent::HeartbeatDue, &mut store, 0);
    assert_eq!(st, ConnState::Active);
    assert_eq!(act, ConnAction::WriteHeartbeat);

    let (st, act) = conn_step(ConnState::Active, &ConnEvent::ShutdownNotified, &mut store, 0);
    assert_eq!(st, ConnState::Closing);
    assert_eq!(act, ConnAction::WriteTerm);

    let (st, act) = conn_step(ConnState::Closing, &ConnEvent::EndOfStream, &mut store, 0);
    assert_eq!(st, ConnState::Closed);
    assert_eq!(act, ConnAction::Idle);

    let (st, act) = conn_step(
        ConnState::Closed,
        &ConnEvent::LineArrived(b"GET k".to_vec()),
        &mut store,
        0,
    );
    assert_eq!(st, ConnState::Closed);
    assert_eq!(act, ConnAction::Idle);
    // the closed connection did not touch the store
    assert_eq!(store.get(b"k", 0), Some(Value::Text(b"v".to_vec())));

    let (st, _) = conn_step(ConnState::Active, &ConnEvent::WriteFailed, &mut store, 0);
    assert_eq!(st, ConnState::Closed);
}

#[test]
fn heartbeat_and_term_lines() {
    assert_eq!(line_heartbeat(), b"UPONG\n".to_vec());
    assert_eq!(line_term(), b"TERM\n".to_vec());
    assert_eq!(HEARTBEAT_PERIOD_SECS, 120);
    assert_eq!(SWEEP_PERIOD_SECS, 60);
}

#[test]
fn log_levels() {
    assert_eq!(LogLevel::from_str("DEBUG"), LogLevel::Debug);
    assert_eq!(LogLevel::from_str("info"), LogLevel::Info);
    assert_eq!(LogLevel::from_str("Warn"), LogLevel::Warn);
    assert_eq!(LogLevel::from_str("ERROR"), LogLevel::Error);
    assert_eq!(LogLevel::from_str("verbose"), LogLevel::Info);
    assert!(LogLevel::Debug.should_log(&LogLevel::Debug));
    assert!(LogLevel::Debug.should_log(&LogLevel::Error));
    assert!(!LogLevel::Info.should_log(&LogLevel::Debug));
    assert!(LogLevel::Info.should_log(&LogLevel::Warn));
    assert!(!LogLevel::Error.should_log(&LogLevel::Warn));
    assert!(LogLevel::Error.should_log(&LogLevel::Error));
    assert_eq!(level_of_tag(b"DEBG"), LogLevel::Debug);
    assert_eq!(level_of_tag(b"ACTV"), LogLevel::Info);
    assert_eq!(level_of_tag(b"ERRO"), LogLevel::Error);
}

#[test]
fn logger_decisions_and_line_format() {
    let logger = Logger::new(
        String::from("127.0.0.1:7878"),
        String::from("kv-node"),
        LogLevel::Info,
        true,
        false,
        true,
    );
    assert!(logger.emits_console(b"INFO"));
    assert!(!logger.emits_console(b"DEBG"));
    assert!(logger.sends_remote(b"INFO"));
    assert!(!logger.sends_remote(b"ACTV"));
    let line = logger.format_log_line(b"INFO", b"KVUP", b"ready");
    let mut expect = b"INFO kv-node".to_vec();
    expect.extend(vec![b' '; 25]);
    expect.extend(b" KVUP 0005: ready\n");
    assert_eq!(line, expect);

    let quiet = Logger::new(String::new(), String::from("kv-node"), LogLevel::Info, false, true,
        true);
    assert!(!quiet.emits_console(b"ERRO"));
    assert!(!quiet.sends_remote(b"ERRO"));
}

#[test]
fn log_record_parse_and_format() {
    let mut line = Vec::new();
    line.extend(b"INFO ");
    line.extend(vec![b'h'; 32]);
    line.extend(b" CODE 0002: hi\n");
    assert_eq!(line.len(), 52);
    let rec = parse_line(&line).ok().unwrap();
    assert_eq!(rec.lvl, b"INFO".to_vec());
    assert_eq!(rec.code, b"CODE".to_vec());
    assert_eq!(rec.len, 2);
    assert_eq!(rec.msg, b"hi".to_vec());
    let out = format_record_line(&rec, b"20260101T000000.000Z0000");
    let mut expect = b"20260101T000000.000Z0000 INFO ".to_vec();
    expect.extend(vec![b'h'; 32]);
    expect.extend(b" CODE 0002: hi\n");
    assert_eq!(out, expect);
}

#[test]
fn log_record_errors() {
    assert_eq!(parse_line(b"short\n").err().unwrap(), ParseError::Invalid);
    let mut oversize = Vec::new();
    oversize.extend(b"INFO ");
    oversize.extend(vec![b'h'; 32]);
    oversize.extend(b" CODE 9999: ");
    oversize.extend(vec![b'm'; 9999]);
    oversize.push(b'\n');
    assert_eq!(parse_line(&oversize).err().unwrap(), ParseError::Oversize);
    // declared length disagreeing with the line length
    let mut wrong = Vec::new();
    wrong.extend(b"INFO ");
    wrong.extend(vec![b'h'; 32]);
    wrong.extend(b" CODE 0005: hi\n");
    assert_eq!(parse_line(&wrong).err().unwrap(), ParseError::Invalid);
}

#[test]
fn queue_routing() {
    assert_eq!(get_queue(b"ACTV"), 0);
    assert_eq!(get_queue(b"ERRO"), 1);
    assert_eq!(get_queue(b"INFO"), 2);
    assert_eq!(get_queue(b"DEBG"), 2);
}

#[test]
fn config_parsing() {
    let text = b"BIND_ADDR = 0.0.0.0:7171\n# note = kept, first equals wins\nSEND_LOG=true\nno_equals_line\nBIND_ADDR=1.2.3.4:9\n";
    let pairs = parse_config(text);
    // the later line wins
    assert_eq!(config_get(&pairs, b"BIND_ADDR"), Some(b"1.2.3.4:9".to_vec()));
    assert_eq!(config_get(&pairs, b"SEND_LOG"), Some(b"true".to_vec()));
    assert_eq!(config_get(&pairs, b"# note"), Some(b"kept, first equals wins".to_vec()));
    assert_eq!(config_get(&pairs, b"MISSING"), None);
}

#[test]
fn client_classification() {
    assert!(matches!(classify_server_line(b"UPONG"), ServerLine::Heartbeat));
    assert!(matches!(classify_server_line(b"TERM"), ServerLine::Term));
    assert!(matches!(classify_server_line(b"OK"), ServerLine::Reply));
    assert!(is_error_reply(b"ERROR invalid length"));
    assert!(!is_error_reply(b"42"));
    assert!(is_not_found_reply(b"ERROR key not found"));
    assert!(!is_not_found_reply(b"ERROR invalid arguments"));
}

#[test]
fn client_requests() {
    let parts = vec![b"GET".to_vec(), b"k".to_vec()];
    assert_eq!(build_request(&parts), b"GET k\n".to_vec());
    let parts = vec![b"SET".to_vec(), b"k".to_vec(), b"v".to_vec(), b"5s".to_vec()];
    assert_eq!(build_request(&parts), b"SET k v 5s\n".to_vec());
    let parts = vec![b"PING".to_vec()];
    assert_eq!(build_request(&parts), b"PING\n".to_vec());
}
